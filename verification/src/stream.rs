//! Per-stream state: role, lifecycle phase, and the record the dispatcher
//! keeps for one logical stream.

use vstd::prelude::*;

verus! {

/// Which endpoint produces application payloads on a stream.
///
/// A stream opened with `Sender` carries payloads from the side that opened
/// it; one opened with `Receiver` carries payloads from the side that
/// accepted it. The wire frame kinds (`SenderMessage`, `ReceiverMessage`,
/// ...) are named after the opener's role, so the two endpoints agree on the
/// kind family of every frame of a stream.
#[derive(Clone, Copy, Debug, PartialEq, Eq, Structural)]
pub enum StreamKind {
    Sender,
    Receiver,
}

/// The lifecycle phase of one stream.
///
/// `Pending`: a request was sent or received and the acknowledgement is
/// outstanding. `Open`: payloads may flow. `Closed`: terminal; only the
/// drain of already-buffered payloads remains.
#[derive(Clone, Copy, Debug, PartialEq, Eq, Structural)]
pub enum Phase {
    Pending,
    Open,
    Closed,
}

/// Why a stream reached `Closed`.
///
/// `Graceful`: a close frame with a `null` payload, or a local graceful
/// close. `PeerError`: the peer closed with an error payload (kept
/// verbatim). `Lost`: the connection failed and the dispatcher closed the
/// stream synthetically. `Violation`: a protocol violation was detected
/// locally and the stream was torn down.
#[derive(Clone, Debug, PartialEq, Eq)]
pub enum CloseInfo {
    Graceful,
    PeerError(Vec<u8>),
    Lost,
    Violation,
}

/// The model of a close cause, with the error payload as a sequence.
pub enum CloseInfoModel {
    Graceful,
    PeerError(Seq<u8>),
    Lost,
    Violation,
}

impl View for CloseInfo {
    type V = CloseInfoModel;

    open spec fn view(&self) -> CloseInfoModel {
        match self {
            CloseInfo::Graceful => CloseInfoModel::Graceful,
            CloseInfo::PeerError(p) => CloseInfoModel::PeerError(p@),
            CloseInfo::Lost => CloseInfoModel::Lost,
            CloseInfo::Violation => CloseInfoModel::Violation,
        }
    }
}

/// One stream as the dispatcher sees it: its identity key, which side
/// opened it, the wire kind family its frames use, and its phase.
///
/// `local_producer` says whether this endpoint is the one producing
/// payloads; it is determined by `kind` and by which side opened the
/// stream (the opener produces on `Sender` streams, the acceptor on
/// `Receiver` streams).
#[derive(Clone, Debug)]
pub struct Stream {
    pub action: Vec<u8>,
    pub kind: StreamKind,
    pub local_producer: bool,
    pub phase: Phase,
}

/// The mathematical model of a [`Stream`].
#[verifier::ext_equal]
pub struct StreamModel {
    pub action: Seq<u8>,
    pub kind: StreamKind,
    pub local_producer: bool,
    pub phase: Phase,
}

impl View for Stream {
    type V = StreamModel;

    open spec fn view(&self) -> StreamModel {
        StreamModel {
            action: self.action@,
            kind: self.kind,
            local_producer: self.local_producer,
            phase: self.phase,
        }
    }
}

} // verus!
