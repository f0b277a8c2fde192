//! The per-connection dispatcher: it owns the action-to-stream table,
//! advances stream state machines on inbound frames, buffers payloads for
//! handles, and produces the outbound frames the embedding program writes
//! to the transport.

use vstd::prelude::*;
use crate::error::StreamError;
use crate::message::{Kind, Message, MessageModel, Step, kind_family, kind_step, make_kind, family_of, step_of, kind_of, null_payload, violation_payload};
use crate::stream::{CloseInfo, CloseInfoModel, Phase, Stream, StreamKind, StreamModel};

verus! {

/// One row of the dispatcher's stream table: the stream itself, the
/// payloads buffered for its handle, why it closed (once it has), and
/// whether its handle is parked in `recv`.
pub struct StreamEntry {
    pub id: u64,
    pub stream: Stream,
    pub queue: Vec<Vec<u8>>,
    pub close: Option<CloseInfo>,
    pub waiting: bool,
}

/// The model of one table row.
#[verifier::ext_equal]
pub struct EntryModel {
    pub id: u64,
    pub stream: StreamModel,
    pub queue: Seq<Seq<u8>>,
    pub close: Option<CloseInfoModel>,
    pub waiting: bool,
}

impl View for StreamEntry {
    type V = EntryModel;

    open spec fn view(&self) -> EntryModel {
        EntryModel {
            id: self.id,
            stream: self.stream@,
            queue: self.queue@.map_values(|q: Vec<u8>| q@),
            close: match self.close {
                Some(c) => Some(c@),
                None => None,
            },
            waiting: self.waiting,
        }
    }
}

/// The dispatcher for one connection.
pub struct StreamServer {
    pub entries: Vec<StreamEntry>,
    pub next_id: u64,
}

/// The model of the dispatcher: the table rows in order, and the next
/// fresh handle id.
#[verifier::ext_equal]
pub struct ServerModel {
    pub entries: Seq<EntryModel>,
    pub next_id: u64,
}

impl View for StreamServer {
    type V = ServerModel;

    open spec fn view(&self) -> ServerModel {
        ServerModel { entries: self.entries@.map_values(|e: StreamEntry| e@), next_id: self.next_id }
    }
}

/// A row whose stream has not reached `Closed`.
pub open spec fn entry_live(e: EntryModel) -> bool {
    e.stream.phase != Phase::Closed
}

/// The stream was opened by this endpoint (so the acknowledgement is owed
/// to us, not by us).
pub open spec fn opened_locally(s: StreamModel) -> bool {
    s.local_producer == (s.kind == StreamKind::Sender)
}

/// The table holds some row with this handle id.
pub open spec fn has_id(es: Seq<EntryModel>, id: u64) -> bool {
    exists|i: int| 0 <= i < es.len() && es[i].id == id
}

/// The index of the row with this handle id.
pub open spec fn idx_of_id(es: Seq<EntryModel>, id: u64) -> int {
    choose|i: int| 0 <= i < es.len() && es[i].id == id
}

/// The table holds a live row for this action.
pub open spec fn has_live_action(es: Seq<EntryModel>, a: Seq<u8>) -> bool {
    exists|i: int| 0 <= i < es.len() && entry_live(es[i]) && es[i].stream.action == a
}

/// The index of the live row for this action.
pub open spec fn idx_of_live_action(es: Seq<EntryModel>, a: Seq<u8>) -> int {
    choose|i: int| 0 <= i < es.len() && entry_live(es[i]) && es[i].stream.action == a
}

/// The dispatcher's invariant: handle ids are unique and below the
/// fresh-id counter, at most one live row exists per action, and a row is
/// marked closed exactly when a close cause is recorded.
pub open spec fn server_wf(s: ServerModel) -> bool {
    &&& forall|i: int, j: int|
        0 <= i < j < s.entries.len() ==> s.entries[i].id != s.entries[j].id
    &&& forall|i: int, j: int|
        0 <= i < j < s.entries.len() ==> !(entry_live(s.entries[i]) && entry_live(s.entries[j])
            && s.entries[i].stream.action == s.entries[j].stream.action)
    &&& forall|i: int| 0 <= i < s.entries.len() ==> (#[trigger] s.entries[i]).id < s.next_id
    &&& forall|i: int|
        0 <= i < s.entries.len() ==> ((#[trigger] s.entries[i]).stream.phase == Phase::Closed) == (
        s.entries[i].close is Some)
}

/// The model of a frame with the given parts.
pub open spec fn frame_model(kind: Kind, action: Seq<u8>, data: Seq<u8>) -> MessageModel {
    MessageModel { kind: kind, action: action, data: data }
}

/// A fresh table row: empty queue, no close cause, nobody waiting.
pub open spec fn fresh_entry(id: u64, action: Seq<u8>, kind: StreamKind, local_producer: bool, phase: Phase) -> EntryModel {
    EntryModel {
        id: id,
        stream: StreamModel { action: action, kind: kind, local_producer: local_producer, phase: phase },
        queue: Seq::<Seq<u8>>::empty(),
        close: None::<CloseInfoModel>,
        waiting: false,
    }
}

/// Whether two byte strings are equal.
pub fn bytes_eq(a: &Vec<u8>, b: &Vec<u8>) -> (r: bool)
    ensures
        r == (a@ == b@),
{
    if a.len() != b.len() {
        return false;
    }
    let mut i: usize = 0;
    while i < a.len()
        invariant
            0 <= i <= a@.len(),
            a@.len() == b@.len(),
            forall|j: int| 0 <= j < i ==> a@[j] == b@[j],
        decreases a@.len() - i,
    {
        if a[i] != b[i] {
            return false;
        }
        i += 1;
    }
    assert(a@ =~= b@);
    true
}

/// A copy of a byte string.
pub fn copy_bytes(v: &Vec<u8>) -> (r: Vec<u8>)
    ensures
        r@ == v@,
{
    let mut out: Vec<u8> = Vec::new();
    let mut i: usize = 0;
    while i < v.len()
        invariant
            0 <= i <= v@.len(),
            out@ == v@.subrange(0, i as int),
        decreases v@.len() - i,
    {
        out.push(v[i]);
        proof {
            assert(v@.subrange(0, i as int + 1) =~= v@.subrange(0, i as int) + seq![v@[i as int]]);
        }
        i += 1;
    }
    assert(v@.subrange(0, v@.len() as int) =~= v@);
    out
}

impl StreamServer {
    /// A dispatcher with an empty table.
    pub fn new() -> (r: StreamServer)
        ensures
            r@.entries == Seq::<EntryModel>::empty(),
            r@.next_id == 0,
            server_wf(r@),
    {
        let r = StreamServer { entries: Vec::new(), next_id: 0 };
        proof {
            assert(r@.entries =~= Seq::<EntryModel>::empty());
        }
        r
    }

    /// The index of the row with handle id `id`, if one exists.
    fn find_by_id(&self, id: u64) -> (r: Option<usize>)
        ensures
            (r matches Some(i) ==> i < self@.entries.len() && self@.entries[i as int].id == id),
            (r is None ==> !has_id(self@.entries, id)),
    {
        let mut i: usize = 0;
        while i < self.entries.len()
            invariant
                0 <= i <= self@.entries.len(),
                self@.entries.len() == self.entries@.len(),
                forall|j: int| 0 <= j < i ==> (#[trigger] self@.entries[j]).id != id,
            decreases self@.entries.len() - i,
        {
            if self.entries[i].id == id {
                assert(self@.entries[i as int].id == id);
                return Some(i);
            }
            i += 1;
        }
        None
    }

    /// The index of the live row for `action`, if one exists.
    fn find_live_action(&self, action: &Vec<u8>) -> (r: Option<usize>)
        ensures
            (r matches Some(i) ==> i < self@.entries.len() && entry_live(self@.entries[i as int])
                && self@.entries[i as int].stream.action == action@),
            (r is None ==> !has_live_action(self@.entries, action@)),
    {
        let mut i: usize = 0;
        while i < self.entries.len()
            invariant
                0 <= i <= self@.entries.len(),
                self@.entries.len() == self.entries@.len(),
                forall|j: int|
                    0 <= j < i ==> !(entry_live(#[trigger] self@.entries[j])
                        && self@.entries[j].stream.action == action@),
            decreases self@.entries.len() - i,
        {
            let e = &self.entries[i];
            let live = match e.stream.phase {
                Phase::Closed => false,
                _ => true,
            };
            if live && bytes_eq(&e.stream.action, action) {
                assert(entry_live(self@.entries[i as int]));
                return Some(i);
            }
            i += 1;
        }
        None
    }

    /// Opens a new stream from this side: reserves the table row in
    /// `Pending` and hands back the handle id and the request frame to
    /// write to the transport.
    ///
    /// Fails with `ProtocolViolation` exactly when a live stream already
    /// uses the action.
    pub fn open_stream(&mut self, action: Vec<u8>, kind: StreamKind, initial: Vec<u8>) -> (r: Result<(u64, Message), StreamError>)
        requires
            server_wf(old(self)@),
            old(self)@.next_id < u64::MAX,
        ensures
            server_wf(final(self)@),
            (has_live_action(old(self)@.entries, action@)
                ==> (r matches Err(e) && e == StreamError::ProtocolViolation && final(self)@ == old(self)@)),
            (!has_live_action(old(self)@.entries, action@)
                ==> (r matches Ok(p) && p.0 == old(self)@.next_id
                && p.1@ == frame_model(make_kind(kind, Step::Request), action@, initial@)
                && final(self)@.next_id == old(self)@.next_id + 1
                && final(self)@.entries == old(self)@.entries.push(fresh_entry(
                    old(self)@.next_id, action@, kind, kind == StreamKind::Sender, Phase::Pending)))),
    {
        if self.find_live_action(&action).is_some() {
            return Err(StreamError::ProtocolViolation);
        }
        let id = self.next_id;
        self.next_id = self.next_id + 1;
        let frame = Message {
            kind: kind_of(kind, Step::Request),
            action: copy_bytes(&action),
            data: initial,
        };
        let entry = StreamEntry {
            id,
            stream: Stream {
                action,
                kind,
                local_producer: (match kind {
                    StreamKind::Sender => true,
                    StreamKind::Receiver => false,
                }),
                phase: Phase::Pending,
            },
            queue: Vec::new(),
            close: None,
            waiting: false,
        };
        let ghost em = entry@;
        self.entries.push(entry);
        proof {
            assert(self@.entries =~= old(self)@.entries.push(em));
            assert(em.queue =~= Seq::<Seq<u8>>::empty());
            assert(server_wf(self@));
        }
        Ok((id, frame))
    }

    /// Accepts a stream the peer requested: records it as `Open` and
    /// hands back the handle id and the acknowledgement frame (the
    /// request kind echoed with a `null` payload).
    ///
    /// Fails exactly as [`StreamServer::open_stream`] does.
    pub fn accept_stream(&mut self, action: Vec<u8>, kind: StreamKind) -> (r: Result<(u64, Message), StreamError>)
        requires
            server_wf(old(self)@),
            old(self)@.next_id < u64::MAX,
        ensures
            server_wf(final(self)@),
            (has_live_action(old(self)@.entries, action@)
                ==> (r matches Err(e) && e == StreamError::ProtocolViolation && final(self)@ == old(self)@)),
            (!has_live_action(old(self)@.entries, action@)
                ==> (r matches Ok(p) && p.0 == old(self)@.next_id
                && p.1@ == frame_model(make_kind(kind, Step::Request), action@, null_payload())
                && final(self)@.next_id == old(self)@.next_id + 1
                && final(self)@.entries == old(self)@.entries.push(fresh_entry(
                    old(self)@.next_id, action@, kind, kind == StreamKind::Receiver, Phase::Open)))),
    {
        if self.find_live_action(&action).is_some() {
            return Err(StreamError::ProtocolViolation);
        }
        let id = self.next_id;
        self.next_id = self.next_id + 1;
        let frame = Message {
            kind: kind_of(kind, Step::Request),
            action: copy_bytes(&action),
            data: crate::message::null_data(),
        };
        let entry = StreamEntry {
            id,
            stream: Stream {
                action,
                kind,
                local_producer: (match kind {
                    StreamKind::Sender => false,
                    StreamKind::Receiver => true,
                }),
                phase: Phase::Open,
            },
            queue: Vec::new(),
            close: None,
            waiting: false,
        };
        let ghost em = entry@;
        self.entries.push(entry);
        proof {
            assert(self@.entries =~= old(self)@.entries.push(em));
            assert(em.queue =~= Seq::<Seq<u8>>::empty());
            assert(server_wf(self@));
        }
        Ok((id, frame))
    }
}

/// The close frame that rejects a peer's stream request without ever
/// recording the stream: the family's close kind with the reason payload.
pub fn reject_frame(action: Vec<u8>, kind: StreamKind, reason: Vec<u8>) -> (r: Message)
    ensures
        r@ == frame_model(make_kind(kind, Step::Close), action@, reason@),
{
    Message { kind: kind_of(kind, Step::Close), action, data: reason }
}

/// What one poll of a receive returns.
///
/// `Ready`: the next buffered payload, in arrival order. `End`: the
/// stream is over; the cause says how. `Waiting`: nothing buffered yet,
/// the caller is now registered as the single waiter. `Busy`: a waiter is
/// already registered; a second concurrent receive is a usage error.
pub enum RecvPoll {
    Ready(Vec<u8>),
    End(CloseInfo),
    Waiting,
    Busy,
}

/// The model of a poll result.
pub enum RecvPollModel {
    Ready(Seq<u8>),
    End(CloseInfoModel),
    Waiting,
    Busy,
}

impl View for RecvPoll {
    type V = RecvPollModel;

    open spec fn view(&self) -> RecvPollModel {
        match self {
            RecvPoll::Ready(p) => RecvPollModel::Ready(p@),
            RecvPoll::End(c) => RecvPollModel::End(c@),
            RecvPoll::Waiting => RecvPollModel::Waiting,
            RecvPoll::Busy => RecvPollModel::Busy,
        }
    }
}

/// With unique ids, the chosen index of an id is the index where it was
/// found.
proof fn lemma_idx_of_id(es: Seq<EntryModel>, id: u64, i: int)
    requires
        0 <= i < es.len(),
        es[i].id == id,
        forall|x: int, y: int| 0 <= x < y < es.len() ==> es[x].id != es[y].id,
    ensures
        has_id(es, id),
        idx_of_id(es, id) == i,
{
    assert(has_id(es, id));
    let j = idx_of_id(es, id);
    assert(0 <= j < es.len() && es[j].id == id);
    if j < i {
        assert(es[j].id != es[i].id);
        assert(false);
    } else if i < j {
        assert(es[i].id != es[j].id);
        assert(false);
    }
}

/// Replacing a row with one that keeps its id and action, and may close
/// but not reopen it, keeps the table invariant.
proof fn lemma_wf_update(s: ServerModel, i: int, e2: EntryModel)
    requires
        server_wf(s),
        0 <= i < s.entries.len(),
        e2.id == s.entries[i].id,
        e2.stream.action == s.entries[i].stream.action,
        (e2.stream.phase == Phase::Closed) == (e2.close is Some),
        entry_live(e2) ==> entry_live(s.entries[i]),
    ensures
        server_wf(ServerModel { entries: s.entries.update(i, e2), next_id: s.next_id }),
{
    let es2 = s.entries.update(i, e2);
    assert forall|x: int, y: int| 0 <= x < y < es2.len() implies es2[x].id != es2[y].id by {
        assert(s.entries[x].id == es2[x].id || x == i);
        assert(s.entries[y].id == es2[y].id || y == i);
    }
    assert forall|x: int, y: int| 0 <= x < y < es2.len() implies !(entry_live(es2[x]) && entry_live(
        es2[y],
    ) && es2[x].stream.action == es2[y].stream.action) by {
        if entry_live(es2[x]) && entry_live(es2[y]) {
            assert(entry_live(s.entries[x]) && s.entries[x].stream.action == es2[x].stream.action);
            assert(entry_live(s.entries[y]) && s.entries[y].stream.action == es2[y].stream.action);
        }
    }
}

/// Removing a row keeps the table invariant.
proof fn lemma_wf_remove(s: ServerModel, i: int)
    requires
        server_wf(s),
        0 <= i < s.entries.len(),
    ensures
        server_wf(ServerModel { entries: s.entries.remove(i), next_id: s.next_id }),
{
    let es2 = s.entries.remove(i);
    assert forall|x: int, y: int| 0 <= x < y < es2.len() implies es2[x].id != es2[y].id by {
        let x0: int = if x < i {
            x
        } else {
            x + 1
        };
        let y0: int = if y < i {
            y
        } else {
            y + 1
        };
        assert(es2[x] == s.entries[x0]);
        assert(es2[y] == s.entries[y0]);
    }
    assert forall|x: int, y: int| 0 <= x < y < es2.len() implies !(entry_live(es2[x]) && entry_live(
        es2[y],
    ) && es2[x].stream.action == es2[y].stream.action) by {
        let x0: int = if x < i {
            x
        } else {
            x + 1
        };
        let y0: int = if y < i {
            y
        } else {
            y + 1
        };
        assert(es2[x] == s.entries[x0]);
        assert(es2[y] == s.entries[y0]);
    }
    assert forall|x: int| 0 <= x < es2.len() implies (#[trigger] es2[x]).id < s.next_id && ((
    es2[x].stream.phase == Phase::Closed) == (es2[x].close is Some)) by {
        let x0: int = if x < i {
            x
        } else {
            x + 1
        };
        assert(es2[x] == s.entries[x0]);
        assert(s.entries[x0].id < s.next_id);
    }
}

impl StreamServer {
    /// Builds the message frame that sends `payload` on the stream of
    /// handle `id`.
    ///
    /// Owed success exactly while the stream is `Open` with this endpoint
    /// as the producer; a missing or closed stream answers `StreamClosed`,
    /// a pending one or a consumer-side handle `ProtocolViolation`. The
    /// table itself is untouched: the embedding program writes the frame.
    pub fn send(&self, id: u64, payload: Vec<u8>) -> (r: Result<Message, StreamError>)
        requires
            server_wf(self@),
        ensures
            (!has_id(self@.entries, id) ==> (r matches Err(e) && e == StreamError::StreamClosed)),
            (has_id(self@.entries, id) ==> ({
                let e = self@.entries[idx_of_id(self@.entries, id)];
                &&& (e.stream.phase == Phase::Closed ==> (r matches Err(err) && err
                    == StreamError::StreamClosed))
                &&& (e.stream.phase == Phase::Pending ==> (r matches Err(err) && err
                    == StreamError::ProtocolViolation))
                &&& (e.stream.phase == Phase::Open && !e.stream.local_producer ==> (r matches Err(
                    err,
                ) && err == StreamError::ProtocolViolation))
                &&& (e.stream.phase == Phase::Open && e.stream.local_producer ==> (r matches Ok(m)
                    && m@ == frame_model(
                    make_kind(e.stream.kind, Step::Message),
                    e.stream.action,
                    payload@,
                )))
            })),
    {
        match self.find_by_id(id) {
            None => Err(StreamError::StreamClosed),
            Some(i) => {
                proof {
                    lemma_idx_of_id(self@.entries, id, i as int);
                }
                let e = &self.entries[i];
                match e.stream.phase {
                    Phase::Closed => Err(StreamError::StreamClosed),
                    Phase::Pending => Err(StreamError::ProtocolViolation),
                    Phase::Open => {
                        if e.stream.local_producer {
                            Ok(Message {
                                kind: kind_of(e.stream.kind, Step::Message),
                                action: copy_bytes(&e.stream.action),
                                data: payload,
                            })
                        } else {
                            Err(StreamError::ProtocolViolation)
                        }
                    },
                }
            },
        }
    }

    /// Closes the stream of handle `id` from this side and releases its
    /// table row.
    ///
    /// On a live stream it hands back the close frame to write — with the
    /// reason payload, or `null` for a graceful end — and the local phase
    /// is terminal whatever happens to that write. On a missing or
    /// already-closed stream it is a no-op that returns nothing, so a
    /// second close is harmless.
    pub fn close(&mut self, id: u64, reason: Option<Vec<u8>>) -> (r: Option<Message>)
        requires
            server_wf(old(self)@),
        ensures
            server_wf(final(self)@),
            final(self)@.next_id == old(self)@.next_id,
            (!has_id(old(self)@.entries, id) ==> (r is None && final(self)@ == old(self)@)),
            (has_id(old(self)@.entries, id) ==> ({
                let i = idx_of_id(old(self)@.entries, id);
                let e = old(self)@.entries[i];
                &&& final(self)@.entries == old(self)@.entries.remove(i)
                &&& (e.stream.phase == Phase::Closed ==> r is None)
                &&& (e.stream.phase != Phase::Closed ==> (r matches Some(m) && m@ == frame_model(
                    make_kind(e.stream.kind, Step::Close),
                    e.stream.action,
                    (match reason {
                        Some(v) => v@,
                        None => null_payload(),
                    }),
                )))
            })),
    {
        match self.find_by_id(id) {
            None => None,
            Some(i) => {
                proof {
                    lemma_idx_of_id(self@.entries, id, i as int);
                    lemma_wf_remove(self@, i as int);
                }
                let entry = self.entries.remove(i);
                proof {
                    assert(self@.entries =~= old(self)@.entries.remove(i as int));
                }
                match entry.stream.phase {
                    Phase::Closed => None,
                    _ => {
                        let data = match reason {
                            Some(v) => v,
                            None => crate::message::null_data(),
                        };
                        Some(Message {
                            kind: kind_of(entry.stream.kind, Step::Close),
                            action: entry.stream.action,
                            data,
                        })
                    },
                }
            },
        }
    }

    /// What dropping a handle without closing it does: the same as a
    /// close, with the fixed `"discarded"` reason payload, so the peer
    /// still observes a close frame for the action.
    pub fn drop_handle(&mut self, id: u64) -> (r: Option<Message>)
        requires
            server_wf(old(self)@),
        ensures
            server_wf(final(self)@),
            final(self)@.next_id == old(self)@.next_id,
            (!has_id(old(self)@.entries, id) ==> (r is None && final(self)@ == old(self)@)),
            (has_id(old(self)@.entries, id) ==> ({
                let i = idx_of_id(old(self)@.entries, id);
                let e = old(self)@.entries[i];
                &&& final(self)@.entries == old(self)@.entries.remove(i)
                &&& (e.stream.phase == Phase::Closed ==> r is None)
                &&& (e.stream.phase != Phase::Closed ==> (r matches Some(m) && m@ == frame_model(
                    make_kind(e.stream.kind, Step::Close),
                    e.stream.action,
                    crate::message::discarded_payload(),
                )))
            })),
    {
        self.close(id, Some(crate::message::discarded_data()))
    }

    /// One poll of the receive side of handle `id`.
    ///
    /// Payloads come out in exactly the order the dispatcher buffered
    /// them; when the queue is drained and the stream has closed, the
    /// close cause comes out once and the row is released — polling the
    /// released handle again reports a plain graceful end, the sequence
    /// being finite and non-restartable. Otherwise the caller is
    /// registered as the stream's single waiter, and a second concurrent
    /// poll reports `Busy` instead of queueing.
    pub fn poll_recv(&mut self, id: u64) -> (r: RecvPoll)
        requires
            server_wf(old(self)@),
        ensures
            server_wf(final(self)@),
            final(self)@.next_id == old(self)@.next_id,
            (!has_id(old(self)@.entries, id) ==> (r@ == RecvPollModel::End(CloseInfoModel::Graceful)
                && final(self)@ == old(self)@)),
            (has_id(old(self)@.entries, id) ==> ({
                let i = idx_of_id(old(self)@.entries, id);
                let e = old(self)@.entries[i];
                &&& (e.queue.len() > 0 ==> (r@ matches RecvPollModel::Ready(p) && p == e.queue[0])
                    && final(self)@.entries == old(self)@.entries.update(
                    i,
                    (EntryModel { queue: e.queue.drop_first(), waiting: false, ..e }),
                ))
                &&& (e.queue.len() == 0 && e.close is Some ==> (r@ matches RecvPollModel::End(c)
                    && e.close == Some(c)) && final(self)@.entries == old(self)@.entries.remove(i))
                &&& (e.queue.len() == 0 && e.close is None && e.waiting ==> r@
                    == RecvPollModel::Busy && final(self)@ == old(self)@)
                &&& (e.queue.len() == 0 && e.close is None && !e.waiting ==> r@
                    == RecvPollModel::Waiting && final(self)@.entries == old(self)@.entries.update(
                    i,
                    (EntryModel { waiting: true, ..e }),
                ))
            })),
    {
        match self.find_by_id(id) {
            None => RecvPoll::End(CloseInfo::Graceful),
            Some(i) => {
                proof {
                    lemma_idx_of_id(self@.entries, id, i as int);
                }
                let ghost pre = self@;
                let mut entry = self.entries.remove(i);
                let ghost em = entry@;
                proof {
                    assert(self@.entries =~= old(self)@.entries.remove(i as int));
                }
                if entry.queue.len() > 0 {
                    let payload = entry.queue.remove(0);
                    entry.waiting = false;
                    let ghost em2 = entry@;
                    self.entries.insert(i, entry);
                    proof {
                        assert(em2.queue =~= em.queue.drop_first());
                        assert(em2 =~= (EntryModel {
                            queue: em.queue.drop_first(),
                            waiting: false,
                            ..em
                        }));
                        assert(self@.entries =~= pre.entries.update(i as int, em2));
                        lemma_wf_update(pre, i as int, em2);
                    }
                    RecvPoll::Ready(payload)
                } else {
                    let has_close = entry.close.is_some();
                    if has_close {
                        let c = match entry.close {
                            Some(c) => c,
                            None => CloseInfo::Graceful,
                        };
                        proof {
                            lemma_wf_remove(pre, i as int);
                        }
                        RecvPoll::End(c)
                    } else if entry.waiting {
                        let ghost em2 = entry@;
                        self.entries.insert(i, entry);
                        proof {
                            assert(em2 =~= em);
                            assert(self@.entries =~= pre.entries.update(i as int, em2));
                            assert(self@.entries =~= pre.entries);
                            assert(self@ =~= pre);
                        }
                        RecvPoll::Busy
                    } else {
                        entry.waiting = true;
                        let ghost em2 = entry@;
                        self.entries.insert(i, entry);
                        proof {
                            assert(em2 =~= (EntryModel { waiting: true, ..em }));
                            assert(self@.entries =~= pre.entries.update(i as int, em2));
                            lemma_wf_update(pre, i as int, em2);
                        }
                        RecvPoll::Waiting
                    }
                }
            },
        }
    }

    /// Withdraws the registered waiter of handle `id`, if any, without
    /// touching the stream's phase: a cancelled receive reports
    /// `Cancelled` to its caller and the stream lives on.
    pub fn cancel_recv(&mut self, id: u64) -> (r: bool)
        requires
            server_wf(old(self)@),
        ensures
            server_wf(final(self)@),
            final(self)@.next_id == old(self)@.next_id,
            (!has_id(old(self)@.entries, id) ==> (r == false && final(self)@ == old(self)@)),
            (has_id(old(self)@.entries, id) ==> ({
                let i = idx_of_id(old(self)@.entries, id);
                let e = old(self)@.entries[i];
                &&& (!e.waiting ==> r == false && final(self)@ == old(self)@)
                &&& (e.waiting ==> r == true && final(self)@.entries == old(self)@.entries.update(
                    i,
                    (EntryModel { waiting: false, ..e }),
                ))
            })),
    {
        match self.find_by_id(id) {
            None => false,
            Some(i) => {
                proof {
                    lemma_idx_of_id(self@.entries, id, i as int);
                }
                let ghost pre = self@;
                let mut entry = self.entries.remove(i);
                let ghost em = entry@;
                let was_waiting = entry.waiting;
                entry.waiting = false;
                let ghost em2 = entry@;
                self.entries.insert(i, entry);
                proof {
                    assert(self@.entries =~= pre.entries.update(i as int, em2));
                    if !em.waiting {
                        assert(em2 =~= em);
                        assert(self@.entries =~= pre.entries);
                        assert(self@ =~= pre);
                    } else {
                        assert(em2 =~= (EntryModel { waiting: false, ..em }));
                        lemma_wf_update(pre, i as int, em2);
                    }
                }
                was_waiting
            },
        }
    }
}

/// What the dispatcher did with one inbound frame.
///
/// `NewRequest`: a request for an unseen action; the embedding program
/// consults its handler registry and then calls
/// [`StreamServer::accept_stream`] or builds a [`reject_frame`].
/// `Opened`: the acknowledgement for a stream this side requested.
/// `Delivered`: a payload was buffered for the handle; `woke` says a
/// parked receive must be woken. `PeerClosed`: the peer ended the stream.
/// `Violated`: the frame broke the protocol; the stream was torn down and
/// `reply` must be written back. `Reply`: no stream was involved but a
/// close-with-error answer is owed — a payload or a second close for an
/// action whose stream is closed or gone is a protocol error, answered
/// with the close-and-violation frame, never dropped silently.
pub enum Dispatch {
    NewRequest { action: Vec<u8>, kind: StreamKind, payload: Vec<u8> },
    Opened { id: u64 },
    Delivered { id: u64, woke: bool },
    PeerClosed { id: u64, woke: bool },
    Violated { id: u64, woke: bool, reply: Message },
    Reply { reply: Message },
}

/// The model of a dispatch outcome.
pub enum DispatchModel {
    NewRequest { action: Seq<u8>, kind: StreamKind, payload: Seq<u8> },
    Opened { id: u64 },
    Delivered { id: u64, woke: bool },
    PeerClosed { id: u64, woke: bool },
    Violated { id: u64, woke: bool, reply: MessageModel },
    Reply { reply: MessageModel },
}

impl View for Dispatch {
    type V = DispatchModel;

    open spec fn view(&self) -> DispatchModel {
        match self {
            Dispatch::NewRequest { action, kind, payload } => DispatchModel::NewRequest {
                action: action@,
                kind: *kind,
                payload: payload@,
            },
            Dispatch::Opened { id } => DispatchModel::Opened { id: *id },
            Dispatch::Delivered { id, woke } => DispatchModel::Delivered {
                id: *id,
                woke: *woke,
            },
            Dispatch::PeerClosed { id, woke } => DispatchModel::PeerClosed {
                id: *id,
                woke: *woke,
            },
            Dispatch::Violated { id, woke, reply } => DispatchModel::Violated {
                id: *id,
                woke: *woke,
                reply: reply@,
            },
            Dispatch::Reply { reply } => DispatchModel::Reply { reply: reply@ },
        }
    }
}

/// The row after its stream closed for cause `c`: terminal phase, cause
/// recorded, any waiter woken, buffered payloads kept for the drain.
pub open spec fn closed_entry(e: EntryModel, c: CloseInfoModel) -> EntryModel {
    EntryModel {
        stream: StreamModel { phase: Phase::Closed, ..e.stream },
        close: Some(c),
        waiting: false,
        ..e
    }
}

/// The row after one payload was buffered for its handle.
pub open spec fn delivered_entry(e: EntryModel, p: Seq<u8>) -> EntryModel {
    EntryModel { queue: e.queue.push(p), waiting: false, ..e }
}

/// The close cause a peer's close frame carries: graceful on a `null`
/// payload, the payload itself otherwise.
pub open spec fn close_cause(data: Seq<u8>) -> CloseInfoModel {
    if data == null_payload() {
        CloseInfoModel::Graceful
    } else {
        CloseInfoModel::PeerError(data)
    }
}

/// The row after the connection was lost: every live stream is closed
/// with the `Lost` cause, closed rows stay as they were.
pub open spec fn lost_entry(e: EntryModel) -> EntryModel {
    if entry_live(e) {
        closed_entry(e, CloseInfoModel::Lost)
    } else {
        e
    }
}

/// With at most one live row per action, the chosen live index of an
/// action is the index where it was found.
proof fn lemma_idx_of_live_action(es: Seq<EntryModel>, a: Seq<u8>, i: int)
    requires
        0 <= i < es.len(),
        entry_live(es[i]),
        es[i].stream.action == a,
        forall|x: int, y: int|
            0 <= x < y < es.len() ==> !(entry_live(es[x]) && entry_live(es[y])
                && es[x].stream.action == es[y].stream.action),
    ensures
        has_live_action(es, a),
        idx_of_live_action(es, a) == i,
{
    assert(has_live_action(es, a));
    let j = idx_of_live_action(es, a);
    assert(0 <= j < es.len() && entry_live(es[j]) && es[j].stream.action == a);
    if j < i {
        assert(!(entry_live(es[j]) && entry_live(es[i]) && es[j].stream.action
            == es[i].stream.action));
        assert(false);
    } else if i < j {
        assert(!(entry_live(es[i]) && entry_live(es[j]) && es[i].stream.action
            == es[j].stream.action));
        assert(false);
    }
}

impl StreamServer {
    /// Tears the stream at row `i` down after a protocol violation and
    /// builds the close-with-error frame owed to the peer.
    fn violate_at(&mut self, i: usize) -> (r: Dispatch)
        requires
            server_wf(old(self)@),
            i < old(self)@.entries.len(),
            entry_live(old(self)@.entries[i as int]),
        ensures
            server_wf(final(self)@),
            final(self)@.next_id == old(self)@.next_id,
            final(self)@.entries == old(self)@.entries.update(
                i as int,
                closed_entry(old(self)@.entries[i as int], CloseInfoModel::Violation),
            ),
            (r@ matches DispatchModel::Violated { id, woke, reply } && id == old(self)@.entries[i as int].id && woke == old(self)@.entries[i as int].waiting && reply
                == frame_model(
                make_kind(old(self)@.entries[i as int].stream.kind, Step::Close),
                old(self)@.entries[i as int].stream.action,
                violation_payload(),
            )),
    {
        let ghost pre = self@;
        let mut entry = self.entries.remove(i);
        let ghost em = entry@;
        let id = entry.id;
        let woke = entry.waiting;
        let reply = Message {
            kind: kind_of(entry.stream.kind, Step::Close),
            action: copy_bytes(&entry.stream.action),
            data: crate::message::violation_data(),
        };
        entry.stream.phase = Phase::Closed;
        entry.close = Some(CloseInfo::Violation);
        entry.waiting = false;
        let ghost em2 = entry@;
        self.entries.insert(i, entry);
        proof {
            assert(em2 =~= closed_entry(em, CloseInfoModel::Violation));
            assert(self@.entries =~= pre.entries.update(i as int, em2));
            lemma_wf_update(pre, i as int, em2);
        }
        Dispatch::Violated { id, woke, reply }
    }

    /// Marks the stream at row `i` open: its acknowledgement arrived.
    fn open_at(&mut self, i: usize) -> (r: Dispatch)
        requires
            server_wf(old(self)@),
            i < old(self)@.entries.len(),
            old(self)@.entries[i as int].stream.phase == Phase::Pending,
        ensures
            server_wf(final(self)@),
            final(self)@.next_id == old(self)@.next_id,
            final(self)@.entries == old(self)@.entries.update(
                i as int,
                (EntryModel {
                    stream: (StreamModel {
                        phase: Phase::Open,
                        ..old(self)@.entries[i as int].stream
                    }),
                    ..old(self)@.entries[i as int]
                }),
            ),
            r@ == (DispatchModel::Opened { id: old(self)@.entries[i as int].id }),
    {
        let ghost pre = self@;
        let mut entry = self.entries.remove(i);
        let ghost em = entry@;
        let id = entry.id;
        entry.stream.phase = Phase::Open;
        let ghost em2 = entry@;
        self.entries.insert(i, entry);
        proof {
            assert(em2 =~= (EntryModel { stream: (StreamModel { phase: Phase::Open, ..em.stream }), ..em }));
            assert(self@.entries =~= pre.entries.update(i as int, em2));
            lemma_wf_update(pre, i as int, em2);
        }
        Dispatch::Opened { id }
    }

    /// Buffers one payload at row `i` and reports whether a parked
    /// receive must be woken.
    fn deliver_at(&mut self, i: usize, payload: Vec<u8>) -> (r: Dispatch)
        requires
            server_wf(old(self)@),
            i < old(self)@.entries.len(),
            entry_live(old(self)@.entries[i as int]),
        ensures
            server_wf(final(self)@),
            final(self)@.next_id == old(self)@.next_id,
            final(self)@.entries == old(self)@.entries.update(
                i as int,
                delivered_entry(old(self)@.entries[i as int], payload@),
            ),
            r@ == (DispatchModel::Delivered {
                id: old(self)@.entries[i as int].id,
                woke: old(self)@.entries[i as int].waiting,
            }),
    {
        let ghost pre = self@;
        let mut entry = self.entries.remove(i);
        let ghost em = entry@;
        let id = entry.id;
        let woke = entry.waiting;
        entry.queue.push(payload);
        entry.waiting = false;
        let ghost em2 = entry@;
        self.entries.insert(i, entry);
        proof {
            assert(em2.queue =~= em.queue.push(payload@));
            assert(em2 =~= delivered_entry(em, payload@));
            assert(self@.entries =~= pre.entries.update(i as int, em2));
            lemma_wf_update(pre, i as int, em2);
        }
        Dispatch::Delivered { id, woke }
    }

    /// Records the peer's close at row `i` and reports whether a parked
    /// receive must be woken.
    fn close_at(&mut self, i: usize, data: &Vec<u8>) -> (r: Dispatch)
        requires
            server_wf(old(self)@),
            i < old(self)@.entries.len(),
            entry_live(old(self)@.entries[i as int]),
        ensures
            server_wf(final(self)@),
            final(self)@.next_id == old(self)@.next_id,
            final(self)@.entries == old(self)@.entries.update(
                i as int,
                closed_entry(old(self)@.entries[i as int], close_cause(data@)),
            ),
            r@ == (DispatchModel::PeerClosed {
                id: old(self)@.entries[i as int].id,
                woke: old(self)@.entries[i as int].waiting,
            }),
    {
        let ghost pre = self@;
        let mut entry = self.entries.remove(i);
        let ghost em = entry@;
        let id = entry.id;
        let woke = entry.waiting;
        let null_bytes = crate::message::null_data();
        let cause = if bytes_eq(data, &null_bytes) {
            CloseInfo::Graceful
        } else {
            CloseInfo::PeerError(copy_bytes(data))
        };
        entry.stream.phase = Phase::Closed;
        entry.close = Some(cause);
        entry.waiting = false;
        let ghost em2 = entry@;
        self.entries.insert(i, entry);
        proof {
            assert(em2 =~= closed_entry(em, close_cause(data@)));
            assert(self@.entries =~= pre.entries.update(i as int, em2));
            lemma_wf_update(pre, i as int, em2);
        }
        Dispatch::PeerClosed { id, woke }
    }

    /// Advances the table by one inbound frame, exactly as the per-stream
    /// state machine prescribes.
    ///
    /// A request for an unseen action is handed up as `NewRequest`; a
    /// request acknowledging a stream this side opened moves it
    /// `Pending -> Open`; a payload frame for an open consumer-side
    /// stream is buffered in arrival order; a close frame ends the stream
    /// from either phase — in `Pending` it is the peer's rejection and the
    /// stream never opens. Everything else is a protocol violation: a
    /// live stream is torn down and its handle will see the close cause,
    /// and a payload or close frame for an action with no live stream — a
    /// second close included — is answered with a close-with-error reply,
    /// never dropped silently.
    pub fn handle_frame(&mut self, m: &Message) -> (r: Dispatch)
        requires
            server_wf(old(self)@),
        ensures
            server_wf(final(self)@),
            final(self)@.next_id == old(self)@.next_id,
            (!has_live_action(old(self)@.entries, m@.action) ==> ({
                &&& (kind_step(m@.kind) == Step::Request ==> final(self)@ == old(self)@ && r@ == (
                DispatchModel::NewRequest {
                    action: m@.action,
                    kind: kind_family(m@.kind),
                    payload: m@.data,
                }))
                &&& (kind_step(m@.kind) != Step::Request ==> final(self)@ == old(self)@ && (
                r@ matches DispatchModel::Reply { reply } && reply == frame_model(
                    make_kind(kind_family(m@.kind), Step::Close),
                    m@.action,
                    violation_payload(),
                )))
            })),
            (has_live_action(old(self)@.entries, m@.action) ==> ({
                let i = idx_of_live_action(old(self)@.entries, m@.action);
                let e = old(self)@.entries[i];
                let viol = (final(self)@.entries == old(self)@.entries.update(
                    i,
                    closed_entry(e, CloseInfoModel::Violation),
                ) && (r@ matches DispatchModel::Violated { id, woke, reply } && id == e.id && woke
                    == e.waiting && reply == frame_model(
                    make_kind(e.stream.kind, Step::Close),
                    e.stream.action,
                    violation_payload(),
                )));
                &&& (e.stream.kind != kind_family(m@.kind) ==> viol)
                &&& (e.stream.kind == kind_family(m@.kind) && kind_step(m@.kind) == Step::Request
                    ==> ({
                    &&& (e.stream.phase == Phase::Pending && opened_locally(e.stream) ==> final(self)@.entries == old(self)@.entries.update(
                        i,
                        (EntryModel {
                            stream: (StreamModel { phase: Phase::Open, ..e.stream }),
                            ..e
                        }),
                    ) && r@ == (DispatchModel::Opened { id: e.id }))
                    &&& (!(e.stream.phase == Phase::Pending && opened_locally(e.stream)) ==> viol)
                }))
                &&& (e.stream.kind == kind_family(m@.kind) && kind_step(m@.kind) == Step::Message
                    ==> ({
                    &&& (e.stream.phase == Phase::Open && !e.stream.local_producer ==> final(self)@.entries == old(self)@.entries.update(i, delivered_entry(e, m@.data)) && r@
                        == (DispatchModel::Delivered { id: e.id, woke: e.waiting }))
                    &&& (!(e.stream.phase == Phase::Open && !e.stream.local_producer) ==> viol)
                }))
                &&& (e.stream.kind == kind_family(m@.kind) && kind_step(m@.kind) == Step::Close
                    ==> final(self)@.entries == old(self)@.entries.update(
                    i,
                    closed_entry(e, close_cause(m@.data)),
                ) && r@ == (DispatchModel::PeerClosed { id: e.id, woke: e.waiting }))
            })),
    {
        let fam = family_of(m.kind);
        let st = step_of(m.kind);
        match self.find_live_action(&m.action) {
            None => {
                match st {
                    Step::Request => Dispatch::NewRequest {
                        action: copy_bytes(&m.action),
                        kind: fam,
                        payload: copy_bytes(&m.data),
                    },
                    _ => Dispatch::Reply {
                        reply: Message {
                            kind: kind_of(fam, Step::Close),
                            action: copy_bytes(&m.action),
                            data: crate::message::violation_data(),
                        },
                    },
                }
            },
            Some(i) => {
                proof {
                    lemma_idx_of_live_action(self@.entries, m@.action, i as int);
                }
                let fam_ok = {
                    let e = &self.entries[i];
                    e.stream.kind == fam
                };
                if !fam_ok {
                    self.violate_at(i)
                } else {
                    match st {
                        Step::Request => {
                            let ack_ok = {
                                let e = &self.entries[i];
                                let pending = match e.stream.phase {
                                    Phase::Pending => true,
                                    _ => false,
                                };
                                pending && (e.stream.local_producer == (e.stream.kind
                                    == StreamKind::Sender))
                            };
                            if ack_ok {
                                self.open_at(i)
                            } else {
                                self.violate_at(i)
                            }
                        },
                        Step::Message => {
                            let deliver_ok = {
                                let e = &self.entries[i];
                                let open = match e.stream.phase {
                                    Phase::Open => true,
                                    _ => false,
                                };
                                open && !e.stream.local_producer
                            };
                            if deliver_ok {
                                self.deliver_at(i, copy_bytes(&m.data))
                            } else {
                                self.violate_at(i)
                            }
                        },
                        Step::Close => self.close_at(i, &m.data),
                    }
                }
            },
        }
    }

}

/// The handle ids owed a wake when the connection is lost: one for every
/// live row whose handle is parked, in table order.
pub open spec fn wake_ids(es: Seq<EntryModel>) -> Seq<u64>
    decreases es.len(),
{
    if es.len() == 0 {
        Seq::<u64>::empty()
    } else {
        let rest = wake_ids(es.drop_last());
        if entry_live(es.last()) && es.last().waiting {
            rest.push(es.last().id)
        } else {
            rest
        }
    }
}

/// Every live, parked row's id stands in the wake list.
proof fn lemma_wake_ids_contains(es: Seq<EntryModel>, j: int)
    requires
        0 <= j < es.len(),
        entry_live(es[j]),
        es[j].waiting,
    ensures
        wake_ids(es).contains(es[j].id),
    decreases es.len(),
{
    if j == es.len() - 1 {
        let w = wake_ids(es);
        assert(w == wake_ids(es.drop_last()).push(es.last().id));
        assert(w[w.len() - 1] == es[j].id);
        assert(w.contains(es[j].id));
    } else {
        assert(es.drop_last()[j] == es[j]);
        lemma_wake_ids_contains(es.drop_last(), j);
        let rest = wake_ids(es.drop_last());
        let k = choose|k: int| 0 <= k < rest.len() && rest[k] == es[j].id;
        if entry_live(es.last()) && es.last().waiting {
            assert(wake_ids(es)[k] == es[j].id);
        } else {
            assert(wake_ids(es) == rest);
        }
        assert(wake_ids(es).contains(es[j].id));
    }
}

impl StreamServer {

    /// Closes every live stream with the `Lost` cause after the
    /// underlying connection failed, walking the table in order, and
    /// hands back exactly the ids of the handles whose parked receives
    /// must now be woken — [`wake_ids`] of the old table, in table order —
    /// so every live handle eventually unblocks.
    pub fn connection_lost(&mut self) -> (r: Vec<u64>)
        requires
            server_wf(old(self)@),
        ensures
            server_wf(final(self)@),
            final(self)@.next_id == old(self)@.next_id,
            final(self)@.entries.len() == old(self)@.entries.len(),
            forall|j: int|
                0 <= j < old(self)@.entries.len() ==> final(self)@.entries[j] == lost_entry(
                    #[trigger] old(self)@.entries[j],
                ),
            r@ == wake_ids(old(self)@.entries),
            forall|j: int|
                0 <= j < old(self)@.entries.len() && entry_live(#[trigger] old(self)@.entries[j])
                    && old(self)@.entries[j].waiting ==> r@.contains(old(self)@.entries[j].id),
    {
        let ghost pre = self@;
        let mut woken: Vec<u64> = Vec::new();
        let mut i: usize = 0;
        let n = self.entries.len();
        assert(pre.entries.take(0) =~= Seq::<EntryModel>::empty());
        while i < n
            invariant
                0 <= i <= n,
                n == pre.entries.len(),
                self@.entries.len() == n,
                self@.next_id == pre.next_id,
                server_wf(pre),
                forall|j: int| 0 <= j < i ==> self@.entries[j] == lost_entry(#[trigger] pre.entries[j]),
                forall|j: int| i <= j < n ==> self@.entries[j] == #[trigger] pre.entries[j],
                woken@ == wake_ids(pre.entries.take(i as int)),
            decreases n - i,
        {
            let ghost mid = self@;
            let live = {
                let e = &self.entries[i];
                match e.stream.phase {
                    Phase::Closed => false,
                    _ => true,
                }
            };
            if live {
                let mut entry = self.entries.remove(i);
                let ghost em = entry@;
                proof {
                    assert(em == pre.entries[i as int]);
                }
                if entry.waiting {
                    woken.push(entry.id);
                }
                entry.stream.phase = Phase::Closed;
                entry.close = Some(CloseInfo::Lost);
                entry.waiting = false;
                let ghost em2 = entry@;
                self.entries.insert(i, entry);
                proof {
                    assert(em2 =~= closed_entry(em, CloseInfoModel::Lost));
                    assert(self@.entries =~= mid.entries.update(i as int, em2));
                    assert(self@.entries[i as int] == lost_entry(pre.entries[i as int]));
                }
            }
            proof {
                assert(pre.entries.take(i as int + 1).drop_last() =~= pre.entries.take(i as int));
                assert(pre.entries.take(i as int + 1).last() == pre.entries[i as int]);
                assert(woken@ == wake_ids(pre.entries.take(i as int + 1)));
            }
            i += 1;
        }
        proof {
            assert(pre.entries.take(n as int) =~= pre.entries);
            assert forall|j: int|
                0 <= j < pre.entries.len() && entry_live(#[trigger] pre.entries[j])
                    && pre.entries[j].waiting implies woken@.contains(pre.entries[j].id) by {
                lemma_wake_ids_contains(pre.entries, j);
            }
            assert forall|x: int, y: int| 0 <= x < y < self@.entries.len() implies self@.entries[x].id
                != self@.entries[y].id by {
                assert(self@.entries[x] == lost_entry(pre.entries[x]));
                assert(self@.entries[y] == lost_entry(pre.entries[y]));
            }
            assert forall|x: int| 0 <= x < self@.entries.len() implies (#[trigger] self@.entries[x]).id
                < self@.next_id && ((self@.entries[x].stream.phase == Phase::Closed) == (
            self@.entries[x].close is Some)) && !entry_live(self@.entries[x]) by {
                assert(self@.entries[x] == lost_entry(pre.entries[x]));
                assert(pre.entries[x].id < pre.next_id);
            }
        }
        woken
    }
}

} // verus!
