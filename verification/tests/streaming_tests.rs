use stream_api::codec::{decode, encode};
use stream_api::error::StreamError;
use stream_api::message::Message;
use stream_api::server::{Dispatch, RecvPoll, StreamServer};
use stream_api::stream::{CloseInfo, StreamKind};
use stream_api::streamer::Streamer;

/// Carries one frame over the "wire": encode on one side, decode on the
/// other, as a real transport would.
fn over_wire(frame: &Message) -> Message {
    decode(&encode(frame)).expect("well-formed frames survive the wire")
}

/// Opens `action` from `client` and accepts it on `server`, returning the
/// two handle ids (client side, server side).
fn open_and_accept(
    client: &mut StreamServer,
    server: &mut StreamServer,
    action: &[u8],
    kind: StreamKind,
) -> (u64, u64) {
    let (cid, req) = client
        .open_stream(action.to_vec(), kind, b"null".to_vec())
        .expect("fresh action opens");
    let req = over_wire(&req);
    let sid = match server.handle_frame(&req) {
        Dispatch::NewRequest { action, kind, payload: _ } => {
            let (sid, ack) = server.accept_stream(action, kind).expect("fresh action accepts");
            let ack = over_wire(&ack);
            match client.handle_frame(&ack) {
                Dispatch::Opened { id } => assert_eq!(id, cid),
                _ => panic!("acknowledgement must open the pending stream"),
            }
            sid
        }
        _ => panic!("a request for an unseen action must surface as NewRequest"),
    };
    (cid, sid)
}

#[test]
fn chat_scenario_send_recv_close() {
    let mut client = StreamServer::new();
    let mut server = StreamServer::new();
    let (cid, sid) = open_and_accept(&mut client, &mut server, b"chat", StreamKind::Sender);

    let frame = client.send(cid, b"{\"text\":\"hi\"}".to_vec()).expect("open sender sends");
    let frame = over_wire(&frame);
    match server.handle_frame(&frame) {
        Dispatch::Delivered { id, woke } => {
            assert_eq!(id, sid);
            assert!(!woke);
        }
        _ => panic!("payload for an open stream must be delivered"),
    }
    match server.poll_recv(sid) {
        RecvPoll::Ready(payload) => assert_eq!(payload, b"{\"text\":\"hi\"}".to_vec()),
        _ => panic!("buffered payload must be ready"),
    }

    let close = client.close(cid, None).expect("first close emits a frame");
    let close = over_wire(&close);
    match server.handle_frame(&close) {
        Dispatch::PeerClosed { id, woke: _ } => assert_eq!(id, sid),
        _ => panic!("close frame must end the stream"),
    }
    match server.poll_recv(sid) {
        RecvPoll::End(CloseInfo::Graceful) => {}
        _ => panic!("drained closed stream must end gracefully"),
    }
}

#[test]
fn fifo_order_is_preserved() {
    let mut client = StreamServer::new();
    let mut server = StreamServer::new();
    let (cid, sid) = open_and_accept(&mut client, &mut server, b"feed", StreamKind::Sender);

    let payloads: Vec<&[u8]> = vec![b"1", b"2", b"3", b"4", b"5"];
    for p in &payloads {
        let frame = client.send(cid, p.to_vec()).expect("send while open");
        let frame = over_wire(&frame);
        assert!(matches!(server.handle_frame(&frame), Dispatch::Delivered { .. }));
    }
    for p in &payloads {
        match server.poll_recv(sid) {
            RecvPoll::Ready(got) => assert_eq!(&got, p),
            _ => panic!("payloads must come out in order"),
        }
    }
    assert!(matches!(server.poll_recv(sid), RecvPoll::Waiting));
}

#[test]
fn reject_never_opens_and_later_message_is_violation() {
    let mut client = StreamServer::new();
    let (cid, req) = client
        .open_stream(b"x".to_vec(), StreamKind::Sender, b"null".to_vec())
        .expect("fresh action opens");
    // The peer rejects: a close frame while the stream is still pending.
    let reject = Message {
        kind: stream_api::message::Kind::SenderClose,
        action: b"x".to_vec(),
        data: b"\"nope\"".to_vec(),
    };
    match client.handle_frame(&over_wire(&reject)) {
        Dispatch::PeerClosed { id, woke: _ } => assert_eq!(id, cid),
        _ => panic!("a close while pending is the peer's rejection"),
    }
    // The stream never opened: sending now reports the rejection.
    assert!(matches!(client.send(cid, b"1".to_vec()), Err(StreamError::StreamClosed)));
    match client.poll_recv(cid) {
        RecvPoll::End(CloseInfo::PeerError(reason)) => assert_eq!(reason, b"\"nope\"".to_vec()),
        _ => panic!("the rejection reason must reach the handle"),
    }
    // A payload frame for the dead action is a protocol violation,
    // answered with a close-with-error, never delivered.
    let stray = Message {
        kind: stream_api::message::Kind::SenderMessage,
        action: b"x".to_vec(),
        data: b"1".to_vec(),
    };
    match client.handle_frame(&over_wire(&stray)) {
        Dispatch::Reply { reply } => {
            assert_eq!(reply.kind, stream_api::message::Kind::SenderClose);
            assert_eq!(reply.action, b"x".to_vec());
            assert_eq!(reply.data, b"\"violation\"".to_vec());
        }
        _ => panic!("a frame for an unknown action draws a close-with-error"),
    }

    // The original request frame stays well-formed on the wire.
    assert_eq!(over_wire(&req).action, b"x".to_vec());
}

#[test]
fn close_is_idempotent_and_send_after_close_fails() {
    let mut client = StreamServer::new();
    let mut server = StreamServer::new();
    let (cid, _sid) = open_and_accept(&mut client, &mut server, b"once", StreamKind::Sender);

    assert!(client.send(cid, b"1".to_vec()).is_ok());
    let first = client.close(cid, None);
    assert!(first.is_some());
    // Any further send on the same handle reports StreamClosed.
    assert!(matches!(client.send(cid, b"2".to_vec()), Err(StreamError::StreamClosed)));
    // A second close is a no-op: no frame, no state change.
    assert!(client.close(cid, None).is_none());
    assert!(client.close(cid, Some(b"\"again\"".to_vec())).is_none());
}

#[test]
fn dropping_a_handle_still_closes_for_the_peer() {
    let mut client = StreamServer::new();
    let mut server = StreamServer::new();
    let (cid, sid) = open_and_accept(&mut client, &mut server, b"leaky", StreamKind::Sender);

    let handle = Streamer::new(cid, b"leaky".to_vec(), StreamKind::Sender);
    let close = handle.discard(&mut client).expect("a live dropped handle emits a close");
    assert_eq!(close.data, b"\"discarded\"".to_vec());
    match server.handle_frame(&over_wire(&close)) {
        Dispatch::PeerClosed { id, woke: _ } => assert_eq!(id, sid),
        _ => panic!("the peer must observe the close for the dropped handle"),
    }
    match server.poll_recv(sid) {
        RecvPoll::End(CloseInfo::PeerError(reason)) => assert_eq!(reason, b"\"discarded\"".to_vec()),
        _ => panic!("the discard reason must reach the peer's handle"),
    }
}

#[test]
fn connection_loss_unblocks_both_pending_recvs() {
    let mut server = StreamServer::new();
    let (aid, _) = server.accept_stream(b"a".to_vec(), StreamKind::Sender).expect("accept a");
    let (bid, _) = server.accept_stream(b"b".to_vec(), StreamKind::Sender).expect("accept b");
    // Both handles park in recv.
    assert!(matches!(server.poll_recv(aid), RecvPoll::Waiting));
    assert!(matches!(server.poll_recv(bid), RecvPoll::Waiting));

    let woken = server.connection_lost();
    assert!(woken.contains(&aid));
    assert!(woken.contains(&bid));

    assert!(matches!(server.poll_recv(aid), RecvPoll::End(CloseInfo::Lost)));
    assert!(matches!(server.poll_recv(bid), RecvPoll::End(CloseInfo::Lost)));
}

#[test]
fn two_concurrent_actions_never_cross() {
    let mut client = StreamServer::new();
    let mut server = StreamServer::new();
    // "up": this side produces. "down": the peer produces.
    let (up_c, up_s) = open_and_accept(&mut client, &mut server, b"up", StreamKind::Sender);
    let (down_c, down_s) = open_and_accept(&mut client, &mut server, b"down", StreamKind::Receiver);

    // Interleave traffic in both directions.
    let u1 = over_wire(&client.send(up_c, b"\"u1\"".to_vec()).expect("up open"));
    assert!(matches!(server.handle_frame(&u1), Dispatch::Delivered { .. }));
    let d1 = over_wire(&server.send(down_s, b"\"d1\"".to_vec()).expect("down open on server"));
    assert!(matches!(client.handle_frame(&d1), Dispatch::Delivered { .. }));
    let u2 = over_wire(&client.send(up_c, b"\"u2\"".to_vec()).expect("up open"));
    assert!(matches!(server.handle_frame(&u2), Dispatch::Delivered { .. }));

    // "up" payloads appear only on the server's up handle, in order.
    match server.poll_recv(up_s) {
        RecvPoll::Ready(p) => assert_eq!(p, b"\"u1\"".to_vec()),
        _ => panic!("up payload missing"),
    }
    match server.poll_recv(up_s) {
        RecvPoll::Ready(p) => assert_eq!(p, b"\"u2\"".to_vec()),
        _ => panic!("up payload missing"),
    }
    assert!(matches!(server.poll_recv(up_s), RecvPoll::Waiting));
    // "down" payloads appear only on the client's down handle.
    match client.poll_recv(down_c) {
        RecvPoll::Ready(p) => assert_eq!(p, b"\"d1\"".to_vec()),
        _ => panic!("down payload missing"),
    }
    assert!(matches!(client.poll_recv(down_c), RecvPoll::Waiting));
}

#[test]
fn second_concurrent_recv_is_reported_not_queued() {
    let mut server = StreamServer::new();
    let (id, _) = server.accept_stream(b"solo".to_vec(), StreamKind::Sender).expect("accept");
    assert!(matches!(server.poll_recv(id), RecvPoll::Waiting));
    assert!(matches!(server.poll_recv(id), RecvPoll::Busy));
    // Cancelling unparks without touching the stream's phase.
    assert!(server.cancel_recv(id));
    assert!(!server.cancel_recv(id));
    assert!(matches!(server.poll_recv(id), RecvPoll::Waiting));
    // The stream is still open: a payload still arrives.
    let m = Message {
        kind: stream_api::message::Kind::SenderMessage,
        action: b"solo".to_vec(),
        data: b"1".to_vec(),
    };
    match server.handle_frame(&m) {
        Dispatch::Delivered { id: got, woke } => {
            assert_eq!(got, id);
            assert!(woke);
        }
        _ => panic!("stream must still be open after a cancelled recv"),
    }
}

#[test]
fn streamer_handle_covers_the_same_operations() {
    let mut client = StreamServer::new();
    let mut server = StreamServer::new();
    let (cid, sid) = open_and_accept(&mut client, &mut server, b"h", StreamKind::Sender);
    let sender = Streamer::new(cid, b"h".to_vec(), StreamKind::Sender);
    let receiver = Streamer::new(sid, b"h".to_vec(), StreamKind::Sender);

    let frame = sender.send(&client, b"7".to_vec()).expect("open sender sends");
    assert!(matches!(server.handle_frame(&over_wire(&frame)), Dispatch::Delivered { .. }));
    match receiver.recv_poll(&mut server) {
        RecvPoll::Ready(p) => assert_eq!(p, b"7".to_vec()),
        _ => panic!("payload must be ready"),
    }
    assert!(matches!(receiver.recv_poll(&mut server), RecvPoll::Waiting));
    assert!(receiver.cancel_recv(&mut server));
    let close = sender.close(&mut client, None).expect("first close emits a frame");
    assert!(matches!(server.handle_frame(&over_wire(&close)), Dispatch::PeerClosed { .. }));
    match receiver.recv_poll(&mut server) {
        RecvPoll::End(CloseInfo::Graceful) => {}
        _ => panic!("graceful end expected"),
    }
}

#[test]
fn duplicate_action_is_refused_until_closed() {
    let mut client = StreamServer::new();
    let r = client.open_stream(b"dup".to_vec(), StreamKind::Sender, b"null".to_vec());
    assert!(r.is_ok());
    let again = client.open_stream(b"dup".to_vec(), StreamKind::Sender, b"null".to_vec());
    assert!(matches!(again, Err(StreamError::ProtocolViolation)));
    // After the stream closes, the action is reusable.
    let (cid, _) = r.unwrap();
    assert!(client.close(cid, None).is_some());
    assert!(client.open_stream(b"dup".to_vec(), StreamKind::Sender, b"null".to_vec()).is_ok());
}

#[test]
fn control_bytes_in_action_work_end_to_end() {
    // Actions are opaque: even control bytes survive the wire.
    let mut client = StreamServer::new();
    let mut server = StreamServer::new();
    let action = b"odd\x00name\x1f".to_vec();
    let (cid, sid) = open_and_accept(&mut client, &mut server, &action, StreamKind::Sender);
    let frame = client.send(cid, b"1".to_vec()).expect("open sender sends");
    assert!(matches!(server.handle_frame(&over_wire(&frame)), Dispatch::Delivered { .. }));
    match server.poll_recv(sid) {
        RecvPoll::Ready(p) => assert_eq!(p, b"1".to_vec()),
        _ => panic!("payload must arrive on the control-byte action"),
    }
}

#[test]
fn stray_close_is_answered_with_close_and_error() {
    // A close for an action with no live stream is a protocol error,
    // answered with the close-and-violation frame, never dropped.
    let mut server = StreamServer::new();
    let stray = Message {
        kind: stream_api::message::Kind::SenderClose,
        action: b"ghost".to_vec(),
        data: b"null".to_vec(),
    };
    match server.handle_frame(&over_wire(&stray)) {
        Dispatch::Reply { reply } => {
            assert_eq!(reply.kind, stream_api::message::Kind::SenderClose);
            assert_eq!(reply.action, b"ghost".to_vec());
            assert_eq!(reply.data, b"\"violation\"".to_vec());
        }
        _ => panic!("a stray close must draw a close-with-error"),
    }
}

#[test]
fn second_close_from_peer_is_answered_with_error() {
    let mut client = StreamServer::new();
    let mut server = StreamServer::new();
    let (cid, sid) = open_and_accept(&mut client, &mut server, b"twice", StreamKind::Sender);
    let close = client.close(cid, None).expect("first close emits a frame");
    match server.handle_frame(&over_wire(&close)) {
        Dispatch::PeerClosed { id, woke: _ } => assert_eq!(id, sid),
        _ => panic!("first close ends the stream"),
    }
    // The peer closes the same action again: protocol error, answered.
    let again = Message {
        kind: stream_api::message::Kind::SenderClose,
        action: b"twice".to_vec(),
        data: b"null".to_vec(),
    };
    match server.handle_frame(&over_wire(&again)) {
        Dispatch::Reply { reply } => assert_eq!(reply.data, b"\"violation\"".to_vec()),
        _ => panic!("a duplicate close must be answered, not dropped"),
    }
    // The handle still drains the original close cause.
    match server.poll_recv(sid) {
        RecvPoll::End(CloseInfo::Graceful) => {}
        _ => panic!("original close cause must be kept"),
    }
}

#[test]
fn wrong_family_frame_tears_the_stream_down() {
    let mut client = StreamServer::new();
    let mut server = StreamServer::new();
    let (_cid, sid) = open_and_accept(&mut client, &mut server, b"fam", StreamKind::Sender);
    // A Receiver-family frame on a Sender-family stream is a violation.
    let bad = Message {
        kind: stream_api::message::Kind::ReceiverMessage,
        action: b"fam".to_vec(),
        data: b"1".to_vec(),
    };
    match server.handle_frame(&bad) {
        Dispatch::Violated { id, woke: _, reply } => {
            assert_eq!(id, sid);
            assert_eq!(reply.kind, stream_api::message::Kind::SenderClose);
            assert_eq!(reply.data, b"\"violation\"".to_vec());
        }
        _ => panic!("family mismatch must be a violation"),
    }
    // The handle drains to the violation cause.
    assert!(matches!(server.poll_recv(sid), RecvPoll::End(CloseInfo::Violation)));
}
