//! Per-plugin event queues: one FIFO of pending events per plugin, with a
//! partial-read cursor that lets a guest drain the head event over several
//! host calls.  The head is popped exactly when a read reaches its last byte.

use crate::event::{chunk_end, EncodedEvent, Event};
use crate::imports::ErrorCode;
use crate::plug_mgr::PluginId;
use vstd::prelude::*;

verus! {

/// One plugin's queue of pending events, oldest first.
pub struct QueueEntry {
    pub id: PluginId,
    pub events: Vec<Event>,
}

/// First queue of `qs` belonging to `p`, if any.
pub open spec fn queue_lookup(qs: Seq<QueueEntry>, p: Seq<char>) -> Option<QueueEntry>
    decreases qs.len(),
{
    if qs.len() == 0 {
        None
    } else if qs[0].id@ == p {
        Some(qs[0])
    } else {
        queue_lookup(qs.skip(1), p)
    }
}

/// The map of per-plugin event queues.
pub struct EventQueues {
    queues: Vec<QueueEntry>,
}

/// What a read of the head of `q` with room for `buf_len` bytes, starting at
/// `offset`, hands back: nothing for an empty queue, an error for an offset
/// past the end of the head's encoding, and otherwise the slice of the
/// encoding from `offset` to at most `offset + buf_len`.
pub open spec fn read_result(q: Seq<Event>, buf_len: int, offset: int) -> Result<
    Seq<u8>,
    ErrorCode,
> {
    if q.len() == 0 {
        Ok(Seq::<u8>::empty())
    } else {
        let eb = q[0].spec_bytes();
        if offset > eb.len() {
            Err(ErrorCode::BadArgument)
        } else {
            Ok(eb.subrange(offset, chunk_end(eb.len() as int, offset, buf_len)))
        }
    }
}

/// The queue after such a read: the head is popped exactly when the read
/// reached the last byte of its encoding.
pub open spec fn read_queue_after(q: Seq<Event>, buf_len: int, offset: int) -> Seq<Event> {
    if q.len() == 0 {
        q
    } else {
        let eb = q[0].spec_bytes();
        if offset > eb.len() {
            q
        } else if chunk_end(eb.len() as int, offset, buf_len) == eb.len() {
            q.drop_first()
        } else {
            q
        }
    }
}

/// A queue list that matches nowhere in its prefix and at `i` looks up to `i`.
proof fn lemma_queue_lookup_at(qs: Seq<QueueEntry>, p: Seq<char>, i: int)
    requires
        0 <= i < qs.len(),
        qs[i].id@ == p,
        forall|k: int| 0 <= k < i ==> qs[k].id@ != p,
    ensures
        queue_lookup(qs, p) == Some(qs[i]),
    decreases qs.len(),
{
    if i > 0 {
        lemma_queue_lookup_at(qs.skip(1), p, i - 1);
    }
}

/// A queue list with no matching name looks up to nothing.
proof fn lemma_queue_lookup_absent(qs: Seq<QueueEntry>, p: Seq<char>)
    requires
        forall|k: int| 0 <= k < qs.len() ==> qs[k].id@ != p,
    ensures
        queue_lookup(qs, p) is None,
    decreases qs.len(),
{
    if qs.len() > 0 {
        lemma_queue_lookup_absent(qs.skip(1), p);
    }
}

/// Lookup after appending a queue: earlier names win; the new name is found.
proof fn lemma_queue_lookup_push(qs: Seq<QueueEntry>, qe: QueueEntry, p: Seq<char>)
    ensures
        queue_lookup(qs.push(qe), p) == (if queue_lookup(qs, p) is Some {
            queue_lookup(qs, p)
        } else if qe.id@ == p {
            Some(qe)
        } else {
            None::<QueueEntry>
        }),
    decreases qs.len(),
{
    if qs.len() == 0 {
        assert(qs.push(qe).skip(1) =~= qs);
    } else {
        assert(qs.push(qe).skip(1) =~= qs.skip(1).push(qe));
        lemma_queue_lookup_push(qs.skip(1), qe, p);
    }
}

/// Lookup after replacing the first entry of a name by one with the same
/// name, at an index whose prefix does not hold the name.
proof fn lemma_queue_lookup_update(qs: Seq<QueueEntry>, i: int, qe: QueueEntry, p: Seq<char>)
    requires
        0 <= i < qs.len(),
        qe.id@ == qs[i].id@,
        forall|k: int| 0 <= k < i ==> qs[k].id@ != qs[i].id@,
    ensures
        queue_lookup(qs.update(i, qe), p) == (if p == qs[i].id@ {
            Some(qe)
        } else {
            queue_lookup(qs, p)
        }),
    decreases qs.len(),
{
    if i == 0 {
        if p != qs[0].id@ {
            assert(qs.update(0, qe).skip(1) =~= qs.skip(1));
        }
    } else {
        assert(qs.update(i, qe).skip(1) =~= qs.skip(1).update(i - 1, qe));
        lemma_queue_lookup_update(qs.skip(1), i - 1, qe, p);
    }
}

impl EventQueues {
    /// The pending events of plugin `p`, oldest first; empty when no event
    /// was ever delivered to it.
    pub closed spec fn q_of(&self, p: Seq<char>) -> Seq<Event> {
        match queue_lookup(self.queues@, p) {
            Some(qe) => qe.events@,
            None => Seq::<Event>::empty(),
        }
    }

    /// Queues with nothing pending for anyone.
    pub fn new() -> (r: EventQueues)
        ensures
            forall|p: Seq<char>| #[trigger] r.q_of(p) == Seq::<Event>::empty(),
    {
        EventQueues { queues: Vec::new() }
    }

    /// Append `ev` to the queue of `id`, creating the queue on its first
    /// event.
    pub fn enqueue(&mut self, id: &PluginId, ev: &Event)
        ensures
            final(self).q_of(id@) == old(self).q_of(id@).push(*ev),
            forall|p: Seq<char>| p != id@ ==> #[trigger] final(self).q_of(p) == old(self).q_of(p),
    {
        let ghost pre = *old(self);
        let ghost gid = id@;
        let n = self.queues.len();
        let mut idx: usize = n;
        let mut i: usize = 0;
        while i < n
            invariant
                *self == pre,
                gid == id@,
                0 <= i <= n,
                n == self.queues@.len(),
                idx == n || (idx < i && self.queues@[idx as int].id@ == gid),
                idx == n ==> forall|k: int| 0 <= k < i ==> self.queues@[k].id@ != gid,
                idx < n ==> forall|k: int| 0 <= k < idx ==> self.queues@[k].id@ != gid,
            decreases n - i,
        {
            if idx == n && self.queues[i].id.eq(id) {
                idx = i;
            }
            i += 1;
        }
        if idx < n {
            let ghost old_qe = pre.queues@[idx as int];
            let mut qe = self.queues.remove(idx);
            qe.events.push(*ev);
            let ghost new_qe = qe;
            self.queues.insert(idx, qe);
            proof {
                assert(self.queues@ =~= pre.queues@.update(idx as int, new_qe));
                lemma_queue_lookup_at(pre.queues@, gid, idx as int);
                assert forall|p: Seq<char>| true implies #[trigger] queue_lookup(self.queues@, p)
                    == (if p == gid {
                    Some(new_qe)
                } else {
                    queue_lookup(pre.queues@, p)
                }) by {
                    lemma_queue_lookup_update(pre.queues@, idx as int, new_qe, p);
                }
            }
        } else {
            let mut events: Vec<Event> = Vec::new();
            events.push(*ev);
            let qe = QueueEntry { id: id.clone(), events };
            self.queues.push(qe);
            proof {
                let new_qe = self.queues@.last();
                assert(self.queues@ =~= pre.queues@.push(new_qe));
                lemma_queue_lookup_absent(pre.queues@, gid);
                assert forall|p: Seq<char>| true implies #[trigger] queue_lookup(self.queues@, p)
                    == (if queue_lookup(pre.queues@, p) is Some {
                    queue_lookup(pre.queues@, p)
                } else if p == gid {
                    Some(new_qe)
                } else {
                    None::<QueueEntry>
                }) by {
                    lemma_queue_lookup_push(pre.queues@, new_qe, p);
                }
                assert(new_qe.events@ =~= Seq::<Event>::empty().push(*ev));
            }
        }
    }

    /// Encoded size of the head event of `id`'s queue, or `0` when nothing is
    /// pending.
    pub fn len(&self, id: &PluginId) -> (n: usize)
        ensures
            n == (if self.q_of(id@).len() == 0 {
                0int
            } else {
                self.q_of(id@)[0].spec_bytes().len() as int
            }),
    {
        let ghost gid = id@;
        let n = self.queues.len();
        let mut idx: usize = n;
        let mut i: usize = 0;
        while i < n
            invariant
                gid == id@,
                0 <= i <= n,
                n == self.queues@.len(),
                idx == n || (idx < i && self.queues@[idx as int].id@ == gid),
                idx == n ==> forall|k: int| 0 <= k < i ==> self.queues@[k].id@ != gid,
                idx < n ==> forall|k: int| 0 <= k < idx ==> self.queues@[k].id@ != gid,
            decreases n - i,
        {
            if idx == n && self.queues[i].id.eq(id) {
                idx = i;
            }
            i += 1;
        }
        if idx == n {
            proof {
                lemma_queue_lookup_absent(self.queues@, gid);
            }
            return 0;
        }
        proof {
            lemma_queue_lookup_at(self.queues@, gid, idx as int);
        }
        let entry = &self.queues[idx];
        if entry.events.is_empty() {
            0
        } else {
            let head = &entry.events[0];
            head.encoded_size()
        }
    }

    /// Read up to `buf_len` bytes of the head event's encoding, starting at
    /// `offset`, and pop the head exactly when the read reaches its end.  An
    /// empty queue reads as zero bytes; an offset past the end of the
    /// encoding is refused.
    pub fn read_from(&mut self, id: &PluginId, buf_len: usize, offset: usize) -> (r: Result<
        Vec<u8>,
        ErrorCode,
    >)
        ensures
            (r is Ok) == (read_result(old(self).q_of(id@), buf_len as int, offset as int) is Ok),
            r matches Ok(v) ==> Ok::<Seq<u8>, ErrorCode>(v@) == read_result(
                old(self).q_of(id@),
                buf_len as int,
                offset as int,
            ),
            r matches Err(e) ==> Err::<Seq<u8>, ErrorCode>(e) == read_result(
                old(self).q_of(id@),
                buf_len as int,
                offset as int,
            ),
            final(self).q_of(id@) == read_queue_after(
                old(self).q_of(id@),
                buf_len as int,
                offset as int,
            ),
            forall|p: Seq<char>| p != id@ ==> #[trigger] final(self).q_of(p) == old(self).q_of(p),
    {
        let ghost pre = *old(self);
        let ghost gid = id@;
        let n = self.queues.len();
        let mut idx: usize = n;
        let mut i: usize = 0;
        while i < n
            invariant
                *self == pre,
                gid == id@,
                0 <= i <= n,
                n == self.queues@.len(),
                idx == n || (idx < i && self.queues@[idx as int].id@ == gid),
                idx == n ==> forall|k: int| 0 <= k < i ==> self.queues@[k].id@ != gid,
                idx < n ==> forall|k: int| 0 <= k < idx ==> self.queues@[k].id@ != gid,
            decreases n - i,
        {
            if idx == n && self.queues[i].id.eq(id) {
                idx = i;
            }
            i += 1;
        }
        if idx == n {
            proof {
                lemma_queue_lookup_absent(pre.queues@, gid);
            }
            return Ok(Vec::new());
        }
        proof {
            lemma_queue_lookup_at(pre.queues@, gid, idx as int);
        }
        let ghost old_qe = pre.queues@[idx as int];
        if self.queues[idx].events.is_empty() {
            return Ok(Vec::new());
        }
        let mut qe = self.queues.remove(idx);
        let encoded = EncodedEvent::new(&qe.events[0]);
        let size = encoded.size();
        if offset > size {
            self.queues.insert(idx, qe);
            proof {
                assert(self.queues@ =~= pre.queues@);
            }
            return Err(ErrorCode::BadArgument);
        }
        let chunk = encoded.read_chunk(offset, buf_len);
        if offset + chunk.len() == size {
            let _ = qe.events.remove(0);
            proof {
                assert(qe.events@ =~= old_qe.events@.drop_first());
            }
        }
        let ghost new_qe = qe;
        self.queues.insert(idx, qe);
        proof {
            assert(self.queues@ =~= pre.queues@.update(idx as int, new_qe));
            assert forall|p: Seq<char>| true implies #[trigger] queue_lookup(self.queues@, p)
                == (if p == gid {
                Some(new_qe)
            } else {
                queue_lookup(pre.queues@, p)
            }) by {
                lemma_queue_lookup_update(pre.queues@, idx as int, new_qe, p);
            }
        }
        Ok(chunk)
    }

    /// Read the head event's encoding from its first byte; see `read_from`.
    pub fn read(&mut self, id: &PluginId, buf_len: usize) -> (r: Result<Vec<u8>, ErrorCode>)
        ensures
            (r is Ok) == (read_result(old(self).q_of(id@), buf_len as int, 0) is Ok),
            r matches Ok(v) ==> Ok::<Seq<u8>, ErrorCode>(v@) == read_result(
                old(self).q_of(id@),
                buf_len as int,
                0,
            ),
            r matches Err(e) ==> Err::<Seq<u8>, ErrorCode>(e) == read_result(
                old(self).q_of(id@),
                buf_len as int,
                0,
            ),
            final(self).q_of(id@) == read_queue_after(old(self).q_of(id@), buf_len as int, 0),
            forall|p: Seq<char>| p != id@ ==> #[trigger] final(self).q_of(p) == old(self).q_of(p),
    {
        self.read_from(id, buf_len, 0)
    }
}

} // verus!
