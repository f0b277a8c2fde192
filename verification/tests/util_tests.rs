use stream_api::error::StreamError;
use stream_api::util::{headers_exist, request_handle_error};

#[test]
fn headers_exist_true_when_all_present() {
    let present = vec![
        String::from("content-type"),
        String::from("authorization"),
        String::from("x-trace"),
    ];
    let required = vec![String::from("authorization"), String::from("content-type")];
    assert!(headers_exist(&present, &required));
}

#[test]
fn headers_exist_false_when_one_missing() {
    let present = vec![String::from("content-type")];
    let required = vec![String::from("content-type"), String::from("authorization")];
    assert!(!headers_exist(&present, &required));
}

#[test]
fn headers_exist_true_on_empty_requirements() {
    let present: Vec<String> = Vec::new();
    let required: Vec<String> = Vec::new();
    assert!(headers_exist(&present, &required));
}

#[test]
fn request_handle_error_names_the_error() {
    let line = request_handle_error(&StreamError::StreamClosed);
    assert_eq!(line, "request handle error: StreamClosed");
    let line = request_handle_error(&StreamError::ConnectionLost);
    assert_eq!(line, "request handle error: ConnectionLost");
}

#[test]
fn error_names_are_stable() {
    assert_eq!(StreamError::MalformedMessage.name(), "MalformedMessage");
    assert_eq!(StreamError::ProtocolViolation.name(), "ProtocolViolation");
    assert_eq!(StreamError::Cancelled.name(), "Cancelled");
    assert_eq!(StreamError::TransportError.name(), "TransportError");
}
