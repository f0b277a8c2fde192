use stream_api::codec::{decode, encode};
use stream_api::error::StreamError;
use stream_api::message::{Kind, Message};

fn msg(kind: Kind, action: &[u8], data: &[u8]) -> Message {
    Message { kind, action: action.to_vec(), data: data.to_vec() }
}

#[test]
fn encode_produces_exact_wire_json() {
    let m = msg(Kind::SenderMessage, b"chat", b"{\"a\":1}");
    let wire = encode(&m);
    assert_eq!(wire, b"{\"kind\":\"SenderMessage\",\"action\":\"chat\",\"data\":{\"a\":1}}".to_vec());
}

#[test]
fn encode_escapes_quotes_and_backslashes_in_action() {
    let m = msg(Kind::SenderClose, b"a\"b\\c", b"null");
    let wire = encode(&m);
    assert_eq!(wire, b"{\"kind\":\"SenderClose\",\"action\":\"a\\\"b\\\\c\",\"data\":null}".to_vec());
}

#[test]
fn round_trip_all_kinds() {
    let kinds = [
        Kind::SenderRequest,
        Kind::SenderMessage,
        Kind::SenderClose,
        Kind::ReceiverRequest,
        Kind::ReceiverMessage,
        Kind::ReceiverClose,
    ];
    for kind in kinds {
        let m = msg(kind, b"some-action", b"{\"x\":[1,2,3]}");
        let back = decode(&encode(&m)).expect("round trip");
        assert_eq!(back, m);
    }
}

#[test]
fn round_trip_escaped_action() {
    let m = msg(Kind::ReceiverMessage, b"we\"ird\\name\"", b"null");
    assert_eq!(decode(&encode(&m)).expect("round trip"), m);
}

#[test]
fn round_trip_empty_action_and_empty_data() {
    let m = msg(Kind::SenderRequest, b"", b"");
    assert_eq!(decode(&encode(&m)).expect("round trip"), m);
}

#[test]
fn round_trip_utf8_action() {
    let m = msg(Kind::SenderMessage, "übermaßstraße".as_bytes(), b"42");
    assert_eq!(decode(&encode(&m)).expect("round trip"), m);
}

#[test]
fn round_trip_payload_with_braces_and_quotes() {
    let m = msg(Kind::SenderMessage, b"chat", b"{\"s\":\"}}{{\\\"\",\"n\":null}");
    assert_eq!(decode(&encode(&m)).expect("round trip"), m);
}

#[test]
fn decode_rejects_empty_input() {
    assert_eq!(decode(&Vec::new()), Err(StreamError::MalformedMessage));
}

#[test]
fn decode_rejects_garbage() {
    assert_eq!(decode(&b"hello world".to_vec()), Err(StreamError::MalformedMessage));
}

#[test]
fn decode_rejects_unknown_kind() {
    let wire = b"{\"kind\":\"SenderPing\",\"action\":\"a\",\"data\":null}".to_vec();
    assert_eq!(decode(&wire), Err(StreamError::MalformedMessage));
}

#[test]
fn decode_rejects_truncated_frame() {
    // Truncating a null-payload frame loses the closing brace.
    let mut wire = encode(&msg(Kind::SenderMessage, b"chat", b"null"));
    wire.pop();
    assert_eq!(decode(&wire), Err(StreamError::MalformedMessage));
    // Truncating inside the action loses its closing quote.
    let wire = encode(&msg(Kind::SenderMessage, b"chat", b"null"));
    let cut = wire[..12].to_vec();
    assert_eq!(decode(&cut), Err(StreamError::MalformedMessage));
}

#[test]
fn decode_rejects_bad_escape() {
    let wire = b"{\"kind\":\"SenderClose\",\"action\":\"a\\qb\",\"data\":null}".to_vec();
    assert_eq!(decode(&wire), Err(StreamError::MalformedMessage));
}

#[test]
fn round_trip_control_byte_action() {
    let m = msg(Kind::SenderMessage, b"a\x00b\x1fc\x07", b"null");
    assert_eq!(decode(&encode(&m)).expect("round trip"), m);
}

#[test]
fn encode_writes_canonical_unicode_escapes() {
    let m = msg(Kind::SenderClose, b"\x00\x07\x1f", b"null");
    let wire = encode(&m);
    assert_eq!(
        wire,
        b"{\"kind\":\"SenderClose\",\"action\":\"\\u0000\\u0007\\u001f\",\"data\":null}".to_vec()
    );
}

#[test]
fn decode_accepts_canonical_unicode_escape() {
    let wire = b"{\"kind\":\"SenderClose\",\"action\":\"\\u001f\",\"data\":null}".to_vec();
    let m = decode(&wire).expect("canonical escape decodes");
    assert_eq!(m.action, vec![0x1f]);
}

#[test]
fn decode_rejects_noncanonical_unicode_escapes() {
    // Above the control range.
    let wire = b"{\"kind\":\"SenderClose\",\"action\":\"\\u0041\",\"data\":null}".to_vec();
    assert_eq!(decode(&wire), Err(StreamError::MalformedMessage));
    // Uppercase hex where the canonical form is lowercase.
    let wire = b"{\"kind\":\"SenderClose\",\"action\":\"\\u001F\",\"data\":null}".to_vec();
    assert_eq!(decode(&wire), Err(StreamError::MalformedMessage));
    // Truncated escape.
    let wire = b"{\"kind\":\"SenderClose\",\"action\":\"\\u00\",\"data\":null}".to_vec();
    assert_eq!(decode(&wire), Err(StreamError::MalformedMessage));
}

#[test]
fn decode_rejects_control_byte_in_action() {
    let wire = b"{\"kind\":\"SenderClose\",\"action\":\"a\x01b\",\"data\":null}".to_vec();
    assert_eq!(decode(&wire), Err(StreamError::MalformedMessage));
}

#[test]
fn decode_rejects_wrong_shape() {
    let wire = b"{\"action\":\"a\",\"kind\":\"SenderClose\",\"data\":null}".to_vec();
    assert_eq!(decode(&wire), Err(StreamError::MalformedMessage));
}

#[test]
fn decode_accepts_kind_prefix_only_as_its_own_kind() {
    // "SenderRequest" and "SenderMessage" share a prefix; both decode to
    // themselves, never to each other.
    let m1 = msg(Kind::SenderRequest, b"a", b"null");
    let m2 = msg(Kind::SenderMessage, b"a", b"null");
    assert_eq!(decode(&encode(&m1)).expect("ok").kind, Kind::SenderRequest);
    assert_eq!(decode(&encode(&m2)).expect("ok").kind, Kind::SenderMessage);
}
