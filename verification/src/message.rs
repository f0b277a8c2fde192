//! The wire unit of the protocol: one envelope of kind, action and payload.

use vstd::prelude::*;
use crate::stream::StreamKind;

verus! {

/// The six wire frame kinds.
///
/// The `Sender`/`Receiver` half names which endpoint produces application
/// payloads on the stream (the initiating side for `Sender` streams, the
/// accepting side for `Receiver` streams); `Request`/`Message`/`Close` name
/// the lifecycle step the frame performs.
#[derive(Clone, Copy, Debug, PartialEq, Eq, Structural)]
pub enum Kind {
    SenderRequest,
    SenderMessage,
    SenderClose,
    ReceiverRequest,
    ReceiverMessage,
    ReceiverClose,
}

/// One wire envelope.
///
/// `action` is the opaque identifier of the logical stream the frame belongs
/// to, as UTF-8 text bytes. `data` is the frame's payload as serialized JSON
/// text (the bytes of `null` for control frames); the streaming core never
/// interprets it beyond passing it through.
#[derive(Clone, Debug, PartialEq, Eq)]
pub struct Message {
    pub kind: Kind,
    pub action: Vec<u8>,
    pub data: Vec<u8>,
}

/// The mathematical model of a wire envelope: the same three fields with the
/// byte vectors abstracted to sequences.
#[verifier::ext_equal]
pub struct MessageModel {
    pub kind: Kind,
    pub action: Seq<u8>,
    pub data: Seq<u8>,
}

impl View for Message {
    type V = MessageModel;

    open spec fn view(&self) -> MessageModel {
        MessageModel { kind: self.kind, action: self.action@, data: self.data@ }
    }
}

/// The lifecycle step a frame performs on its stream.
#[derive(Clone, Copy, Debug, PartialEq, Eq, Structural)]
pub enum Step {
    Request,
    Message,
    Close,
}

/// The kind family (opener role) a frame kind belongs to.
pub open spec fn kind_family(k: Kind) -> StreamKind {
    match k {
        Kind::SenderRequest | Kind::SenderMessage | Kind::SenderClose => StreamKind::Sender,
        Kind::ReceiverRequest | Kind::ReceiverMessage | Kind::ReceiverClose => StreamKind::Receiver,
    }
}

/// The lifecycle step a frame kind performs.
pub open spec fn kind_step(k: Kind) -> Step {
    match k {
        Kind::SenderRequest | Kind::ReceiverRequest => Step::Request,
        Kind::SenderMessage | Kind::ReceiverMessage => Step::Message,
        Kind::SenderClose | Kind::ReceiverClose => Step::Close,
    }
}

/// The frame kind of a family and a step.
pub open spec fn make_kind(f: StreamKind, s: Step) -> Kind {
    match (f, s) {
        (StreamKind::Sender, Step::Request) => Kind::SenderRequest,
        (StreamKind::Sender, Step::Message) => Kind::SenderMessage,
        (StreamKind::Sender, Step::Close) => Kind::SenderClose,
        (StreamKind::Receiver, Step::Request) => Kind::ReceiverRequest,
        (StreamKind::Receiver, Step::Message) => Kind::ReceiverMessage,
        (StreamKind::Receiver, Step::Close) => Kind::ReceiverClose,
    }
}

/// The kind family (opener role) of a frame kind.
pub fn family_of(k: Kind) -> (r: StreamKind)
    ensures
        r == kind_family(k),
{
    match k {
        Kind::SenderRequest | Kind::SenderMessage | Kind::SenderClose => StreamKind::Sender,
        Kind::ReceiverRequest | Kind::ReceiverMessage | Kind::ReceiverClose => StreamKind::Receiver,
    }
}

/// The lifecycle step of a frame kind.
pub fn step_of(k: Kind) -> (r: Step)
    ensures
        r == kind_step(k),
{
    match k {
        Kind::SenderRequest | Kind::ReceiverRequest => Step::Request,
        Kind::SenderMessage | Kind::ReceiverMessage => Step::Message,
        Kind::SenderClose | Kind::ReceiverClose => Step::Close,
    }
}

/// The frame kind of a family and a step.
pub fn kind_of(f: StreamKind, s: Step) -> (r: Kind)
    ensures
        r == make_kind(f, s),
{
    match (f, s) {
        (StreamKind::Sender, Step::Request) => Kind::SenderRequest,
        (StreamKind::Sender, Step::Message) => Kind::SenderMessage,
        (StreamKind::Sender, Step::Close) => Kind::SenderClose,
        (StreamKind::Receiver, Step::Request) => Kind::ReceiverRequest,
        (StreamKind::Receiver, Step::Message) => Kind::ReceiverMessage,
        (StreamKind::Receiver, Step::Close) => Kind::ReceiverClose,
    }
}

/// The payload bytes of JSON `null`, carried by control frames that have
/// nothing to say.
pub open spec fn null_payload() -> Seq<u8> {
    seq![110u8, 117u8, 108u8, 108u8]
}

/// JSON `null` as a vector.
pub fn null_data() -> (r: Vec<u8>)
    ensures
        r@ == null_payload(),
{
    let mut v: Vec<u8> = Vec::new();
    v.push(110);
    v.push(117);
    v.push(108);
    v.push(108);
    assert(v@ =~= null_payload());
    v
}

/// The close payload sent back for a protocol violation: the JSON string
/// `"violation"`.
pub open spec fn violation_payload() -> Seq<u8> {
    seq![34u8, 118u8, 105u8, 111u8, 108u8, 97u8, 116u8, 105u8, 111u8, 110u8, 34u8]
}

/// `"violation"` as a vector.
pub fn violation_data() -> (r: Vec<u8>)
    ensures
        r@ == violation_payload(),
{
    let mut v: Vec<u8> = Vec::new();
    v.push(34);
    v.push(118);
    v.push(105);
    v.push(111);
    v.push(108);
    v.push(97);
    v.push(116);
    v.push(105);
    v.push(111);
    v.push(110);
    v.push(34);
    assert(v@ =~= violation_payload());
    v
}

/// The close payload sent when a handle is dropped without a close: the
/// JSON string `"discarded"`.
pub open spec fn discarded_payload() -> Seq<u8> {
    seq![34u8, 100u8, 105u8, 115u8, 99u8, 97u8, 114u8, 100u8, 101u8, 100u8, 34u8]
}

/// `"discarded"` as a vector.
pub fn discarded_data() -> (r: Vec<u8>)
    ensures
        r@ == discarded_payload(),
{
    let mut v: Vec<u8> = Vec::new();
    v.push(34);
    v.push(100);
    v.push(105);
    v.push(115);
    v.push(99);
    v.push(97);
    v.push(114);
    v.push(100);
    v.push(101);
    v.push(100);
    v.push(34);
    assert(v@ =~= discarded_payload());
    v
}

} // verus!
