//! The error taxonomy shared by the codec, the dispatcher and the stream
//! handles.

use vstd::prelude::*;

verus! {

/// Everything that can go wrong inside the streaming subsystem.
///
/// - `MalformedMessage`: a wire frame could not be decoded.
/// - `ProtocolViolation`: a frame was inconsistent with the stream's phase.
/// - `StreamClosed`: an operation was attempted on a terminated stream.
/// - `ConnectionLost`: the underlying connection failed; every open stream
///   is synthetically closed.
/// - `Cancelled`: a suspended receive was aborted by its caller.
/// - `TransportError`: a write failure reported by the transport collaborator.
#[derive(Clone, Copy, Debug, PartialEq, Eq, Structural)]
pub enum StreamError {
    MalformedMessage,
    ProtocolViolation,
    StreamClosed,
    ConnectionLost,
    Cancelled,
    TransportError,
}

impl StreamError {
    /// A short stable name for the error kind, for log lines and close
    /// payloads.
    pub fn name(&self) -> (r: &'static str)
        ensures
            r@ == spec_error_name(*self),
    {
        match self {
            StreamError::MalformedMessage => "MalformedMessage",
            StreamError::ProtocolViolation => "ProtocolViolation",
            StreamError::StreamClosed => "StreamClosed",
            StreamError::ConnectionLost => "ConnectionLost",
            StreamError::Cancelled => "Cancelled",
            StreamError::TransportError => "TransportError",
        }
    }
}

/// The name that [`StreamError::name`] returns for each kind.
pub open spec fn spec_error_name(e: StreamError) -> Seq<char> {
    match e {
        StreamError::MalformedMessage => "MalformedMessage"@,
        StreamError::ProtocolViolation => "ProtocolViolation"@,
        StreamError::StreamClosed => "StreamClosed"@,
        StreamError::ConnectionLost => "ConnectionLost"@,
        StreamError::Cancelled => "Cancelled"@,
        StreamError::TransportError => "TransportError"@,
    }
}

} // verus!
