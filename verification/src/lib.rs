//! A bidirectional, multiplexed message protocol layered on top of a single
//! persistent, message-framed connection.
//!
//! Many independent named "actions" share one connection; each action can
//! carry a long-lived, ordered stream of application payloads in either
//! direction, with explicit open/acknowledge/close semantics and per-stream
//! error propagation.
//!
//! The crate is transport-agnostic: it turns inbound wire frames into state
//! changes and outbound frames into values, and the embedding program moves
//! the bytes.

pub mod codec;
pub mod error;
pub mod laws;
pub mod message;
pub mod server;
pub mod stream;
pub mod streamer;
pub mod util;

pub use error::StreamError;
pub use message::{Kind, Message};
pub use server::{Dispatch, RecvPoll, StreamServer};
pub use stream::{Phase, Stream, StreamKind};
pub use streamer::Streamer;
