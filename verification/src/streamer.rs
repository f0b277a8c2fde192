//! The handle application code holds for one stream.
//!
//! A handle carries only the key into the dispatcher's table, never the
//! authoritative state; every operation goes through the owning
//! [`StreamServer`]. Receiving is polled: `recv_poll` either yields the
//! next buffered payload, ends the stream, or registers the caller as the
//! stream's single waiter — the embedding program parks the task and
//! calls again when the dispatcher reports a wake for the handle's id.

use vstd::prelude::*;
use crate::error::StreamError;
use crate::message::{Message, Step, make_kind};
use crate::server::{
    EntryModel, RecvPoll, RecvPollModel, StreamServer, frame_model, has_id, idx_of_id, server_wf,
};
use crate::stream::{CloseInfoModel, Phase, StreamKind};

verus! {

/// The application-facing handle for one stream: the table key and the
/// identity of the stream it was created for.
pub struct Streamer {
    pub id: u64,
    pub action: Vec<u8>,
    pub kind: StreamKind,
}

impl Streamer {
    /// A handle for the stream that was registered under `id`.
    pub fn new(id: u64, action: Vec<u8>, kind: StreamKind) -> (r: Streamer)
        ensures
            r.id == id,
            r.action@ == action@,
            r.kind == kind,
    {
        Streamer { id, action, kind }
    }

    /// Builds the frame that sends `payload` on this stream, exactly as
    /// [`StreamServer::send`] for this handle's id.
    pub fn send(&self, srv: &StreamServer, payload: Vec<u8>) -> (r: Result<Message, StreamError>)
        requires
            server_wf(srv@),
        ensures
            (!has_id(srv@.entries, self.id) ==> (r matches Err(e) && e
                == StreamError::StreamClosed)),
            (has_id(srv@.entries, self.id) ==> ({
                let e = srv@.entries[idx_of_id(srv@.entries, self.id)];
                &&& (e.stream.phase == Phase::Closed ==> (r matches Err(err) && err
                    == StreamError::StreamClosed))
                &&& (e.stream.phase == Phase::Pending ==> (r matches Err(err) && err
                    == StreamError::ProtocolViolation))
                &&& (e.stream.phase == Phase::Open && !e.stream.local_producer ==> (r matches Err(
                    err,
                ) && err == StreamError::ProtocolViolation))
                &&& (e.stream.phase == Phase::Open && e.stream.local_producer ==> (r matches Ok(m)
                    && m@ == frame_model(
                    make_kind(e.stream.kind, Step::Message),
                    e.stream.action,
                    payload@,
                )))
            })),
    {
        srv.send(self.id, payload)
    }

    /// Closes this stream, exactly as [`StreamServer::close`] for this
    /// handle's id: idempotent, terminal whatever happens to the write.
    pub fn close(&self, srv: &mut StreamServer, reason: Option<Vec<u8>>) -> (r: Option<Message>)
        requires
            server_wf(old(srv)@),
        ensures
            server_wf(final(srv)@),
            final(srv)@.next_id == old(srv)@.next_id,
            (!has_id(old(srv)@.entries, self.id) ==> (r is None && final(srv)@ == old(srv)@)),
            (has_id(old(srv)@.entries, self.id) ==> ({
                let i = idx_of_id(old(srv)@.entries, self.id);
                let e = old(srv)@.entries[i];
                &&& final(srv)@.entries == old(srv)@.entries.remove(i)
                &&& (e.stream.phase == Phase::Closed ==> r is None)
                &&& (e.stream.phase != Phase::Closed ==> (r matches Some(m) && m@ == frame_model(
                    make_kind(e.stream.kind, Step::Close),
                    e.stream.action,
                    (match reason {
                        Some(v) => v@,
                        None => crate::message::null_payload(),
                    }),
                )))
            })),
    {
        srv.close(self.id, reason)
    }

    /// What dropping this handle without a close does, exactly as
    /// [`StreamServer::drop_handle`]: the peer still observes a close
    /// frame, with the `"discarded"` reason.
    pub fn discard(self, srv: &mut StreamServer) -> (r: Option<Message>)
        requires
            server_wf(old(srv)@),
        ensures
            server_wf(final(srv)@),
            final(srv)@.next_id == old(srv)@.next_id,
            (!has_id(old(srv)@.entries, self.id) ==> (r is None && final(srv)@ == old(srv)@)),
            (has_id(old(srv)@.entries, self.id) ==> ({
                let i = idx_of_id(old(srv)@.entries, self.id);
                let e = old(srv)@.entries[i];
                &&& final(srv)@.entries == old(srv)@.entries.remove(i)
                &&& (e.stream.phase == Phase::Closed ==> r is None)
                &&& (e.stream.phase != Phase::Closed ==> (r matches Some(m) && m@ == frame_model(
                    make_kind(e.stream.kind, Step::Close),
                    e.stream.action,
                    crate::message::discarded_payload(),
                )))
            })),
    {
        srv.drop_handle(self.id)
    }

    /// One receive poll, exactly as [`StreamServer::poll_recv`] for this
    /// handle's id: buffered payloads in order, then the close cause once.
    pub fn recv_poll(&self, srv: &mut StreamServer) -> (r: RecvPoll)
        requires
            server_wf(old(srv)@),
        ensures
            server_wf(final(srv)@),
            final(srv)@.next_id == old(srv)@.next_id,
            (!has_id(old(srv)@.entries, self.id) ==> (r@ == RecvPollModel::End(
                CloseInfoModel::Graceful,
            ) && final(srv)@ == old(srv)@)),
            (has_id(old(srv)@.entries, self.id) ==> ({
                let i = idx_of_id(old(srv)@.entries, self.id);
                let e = old(srv)@.entries[i];
                &&& (e.queue.len() > 0 ==> (r@ matches RecvPollModel::Ready(p) && p == e.queue[0])
                    && final(srv)@.entries == old(srv)@.entries.update(
                    i,
                    (EntryModel { queue: e.queue.drop_first(), waiting: false, ..e }),
                ))
                &&& (e.queue.len() == 0 && e.close is Some ==> (r@ matches RecvPollModel::End(c)
                    && e.close == Some(c)) && final(srv)@.entries == old(srv)@.entries.remove(i))
                &&& (e.queue.len() == 0 && e.close is None && e.waiting ==> r@
                    == RecvPollModel::Busy && final(srv)@ == old(srv)@)
                &&& (e.queue.len() == 0 && e.close is None && !e.waiting ==> r@
                    == RecvPollModel::Waiting && final(srv)@.entries == old(srv)@.entries.update(
                    i,
                    (EntryModel { waiting: true, ..e }),
                ))
            })),
    {
        srv.poll_recv(self.id)
    }

    /// Cancels a pending receive, exactly as [`StreamServer::cancel_recv`]:
    /// the waiter is withdrawn, the stream's phase is untouched, and the
    /// caller reports `Cancelled` to whoever was waiting.
    pub fn cancel_recv(&self, srv: &mut StreamServer) -> (r: bool)
        requires
            server_wf(old(srv)@),
        ensures
            server_wf(final(srv)@),
            final(srv)@.next_id == old(srv)@.next_id,
            (!has_id(old(srv)@.entries, self.id) ==> (r == false && final(srv)@ == old(srv)@)),
            (has_id(old(srv)@.entries, self.id) ==> ({
                let i = idx_of_id(old(srv)@.entries, self.id);
                let e = old(srv)@.entries[i];
                &&& (!e.waiting ==> r == false && final(srv)@ == old(srv)@)
                &&& (e.waiting ==> r == true && final(srv)@.entries == old(srv)@.entries.update(
                    i,
                    (EntryModel { waiting: false, ..e }),
                ))
            })),
    {
        srv.cancel_recv(self.id)
    }
}

} // verus!
