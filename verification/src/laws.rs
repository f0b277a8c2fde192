//! The protocol's cross-operation guarantees, stated and proved over the
//! same models the operations' contracts use.

use vstd::prelude::*;
use crate::server::{
    EntryModel, ServerModel, close_cause, closed_entry, delivered_entry, entry_live, has_id,
    has_live_action, idx_of_id, lost_entry, server_wf,
};
use crate::stream::{CloseInfoModel, Phase};

verus! {

/// The table after the dispatcher buffered the payloads `ps` on one row,
/// one frame at a time, in arrival order.
pub open spec fn deliver_all(e: EntryModel, ps: Seq<Seq<u8>>) -> EntryModel
    decreases ps.len(),
{
    if ps.len() == 0 {
        e
    } else {
        deliver_all(delivered_entry(e, ps[0]), ps.skip(1))
    }
}

/// Per-stream delivery is first-in first-out: buffering the payloads `ps`
/// appends them to the queue in exactly their arrival order, so the
/// receive side — which always takes the queue's front — yields them in
/// the order they were sent.
pub proof fn lemma_fifo_order(e: EntryModel, ps: Seq<Seq<u8>>)
    ensures
        deliver_all(e, ps).queue == e.queue + ps,
        deliver_all(e, ps).id == e.id,
        deliver_all(e, ps).stream == e.stream,
    decreases ps.len(),
{
    if ps.len() == 0 {
        assert(e.queue + ps =~= e.queue);
    } else {
        let e1 = delivered_entry(e, ps[0]);
        lemma_fifo_order(e1, ps.skip(1));
        assert(e.queue.push(ps[0]) + ps.skip(1) =~= e.queue + ps);
    }
}

/// A rejection never opens the stream: a close frame that arrives while
/// the stream is `Pending` leaves it terminal — `Closed`, never `Open` —
/// and afterwards no live stream uses the action at all, so a payload
/// frame for that action is answered as a protocol violation instead of
/// being delivered.
pub proof fn lemma_reject_never_opens(s: ServerModel, i: int, data: Seq<u8>)
    requires
        server_wf(s),
        0 <= i < s.entries.len(),
        s.entries[i].stream.phase == Phase::Pending,
    ensures
        ({
            let s2 = ServerModel {
                entries: s.entries.update(i, closed_entry(s.entries[i], close_cause(data))),
                next_id: s.next_id,
            };
            &&& s2.entries[i].stream.phase == Phase::Closed
            &&& s2.entries[i].stream.phase != Phase::Open
            &&& !has_live_action(s2.entries, s.entries[i].stream.action)
        }),
{
    let a = s.entries[i].stream.action;
    let s2 = ServerModel {
        entries: s.entries.update(i, closed_entry(s.entries[i], close_cause(data))),
        next_id: s.next_id,
    };
    assert forall|j: int|
        0 <= j < s2.entries.len() implies !(entry_live(#[trigger] s2.entries[j])
        && s2.entries[j].stream.action == a) by {
        if j != i && entry_live(s2.entries[j]) && s2.entries[j].stream.action == a {
            assert(s2.entries[j] == s.entries[j]);
            assert(entry_live(s.entries[i]));
            if j < i {
                assert(!(entry_live(s.entries[j]) && entry_live(s.entries[i])
                    && s.entries[j].stream.action == s.entries[i].stream.action));
            } else {
                assert(!(entry_live(s.entries[i]) && entry_live(s.entries[j])
                    && s.entries[i].stream.action == s.entries[j].stream.action));
            }
            assert(false);
        }
    }
}

/// A close releases the handle for good: once the row with a handle id
/// is removed, no row with that id remains, so a later send on the handle
/// is answered `StreamClosed` and a second close is a no-op.
pub proof fn lemma_close_releases_id(s: ServerModel, id: u64)
    requires
        server_wf(s),
        has_id(s.entries, id),
    ensures
        !has_id(s.entries.remove(idx_of_id(s.entries, id)), id),
{
    let i = idx_of_id(s.entries, id);
    assert(0 <= i < s.entries.len() && s.entries[i].id == id);
    let es2 = s.entries.remove(i);
    assert forall|j: int| 0 <= j < es2.len() implies (#[trigger] es2[j]).id != id by {
        let j0: int = if j < i {
            j
        } else {
            j + 1
        };
        assert(es2[j] == s.entries[j0]);
        if j0 < i {
            assert(s.entries[j0].id != s.entries[i].id);
        } else {
            assert(s.entries[i].id != s.entries[j0].id);
        }
    }
}

/// A connection loss unblocks everyone: every live row becomes `Closed`
/// with the `Lost` cause and no waiter stays registered, so a parked
/// receive is woken and its drain ends with the loss indication.
pub proof fn lemma_lost_unblocks(e: EntryModel)
    requires
        entry_live(e),
    ensures
        lost_entry(e).stream.phase == Phase::Closed,
        lost_entry(e).close == Some(CloseInfoModel::Lost),
        !lost_entry(e).waiting,
        lost_entry(e).queue == e.queue,
        lost_entry(e).id == e.id,
{
}

} // verus!
