//! The server's ordered store of items that the subscriber has not yet
//! acknowledged.

use std::collections::VecDeque;
use vstd::prelude::*;

use crate::types::{ItemView, MoquItem};

verus! {

/// Items waiting for delivery, oldest first, each with its sequence number.
///
/// `sseq` is the highest sequence number assigned so far and `cliseq` the
/// highest one the server no longer retains. The queue holds exactly the
/// items numbered `cliseq + 1 ..= sseq`, in that order.
pub struct MoquQueue {
    queue: VecDeque<(u64, MoquItem)>,
    sseq: u64,
    cliseq: u64,
}

/// Where `cliseq` stands after an acknowledgment of `seq`: it never moves
/// back, and never past `sseq`.
pub open spec fn acked_to(cliseq: u64, sseq: u64, seq: u64) -> u64 {
    if seq <= cliseq {
        cliseq
    } else if seq <= sseq {
        seq
    } else {
        sseq
    }
}

/// The retained entries as (sequence number, item) pairs.
pub open spec fn entries_view(q: Seq<(u64, MoquItem)>) -> Seq<(u64, ItemView)> {
    q.map_values(|e: (u64, MoquItem)| (e.0, e.1@))
}

impl MoquQueue {
    pub closed spec fn spec_sseq(&self) -> u64 {
        self.sseq
    }

    pub closed spec fn spec_cliseq(&self) -> u64 {
        self.cliseq
    }

    /// The retained entries, oldest first.
    pub closed spec fn entries(&self) -> Seq<(u64, ItemView)> {
        entries_view(self.queue@)
    }

    /// The retained items, oldest first, without their numbers.
    pub open spec fn items(&self) -> Seq<ItemView> {
        self.entries().map_values(|e: (u64, ItemView)| e.1)
    }

    pub closed spec fn wf(&self) -> bool {
        &&& self.cliseq <= self.sseq
        &&& self.queue@.len() == self.sseq - self.cliseq
        &&& forall|i: int|
            0 <= i < self.queue@.len() ==> #[trigger] self.queue@[i].0 == self.cliseq + i + 1
    }

    /// The numbering that `wf` promises, stated over the public view.
    pub proof fn lemma_numbering(&self)
        requires
            self.wf(),
        ensures
            self.spec_cliseq() <= self.spec_sseq(),
            self.entries().len() == self.spec_sseq() - self.spec_cliseq(),
            forall|i: int|
                0 <= i < self.entries().len() ==> #[trigger] self.entries()[i].0
                    == self.spec_cliseq() + i + 1,
    {
        assert forall|i: int| 0 <= i < self.entries().len() implies #[trigger] self.entries()[i].0
            == self.spec_cliseq() + i + 1 by {
            assert(self.queue@[i].0 == self.cliseq + i + 1);
        }
    }

    /// An empty queue with both counters at zero.
    pub fn new() -> (r: MoquQueue)
        ensures
            r.wf(),
            r.spec_sseq() == 0,
            r.spec_cliseq() == 0,
            r.entries() == Seq::<(u64, ItemView)>::empty(),
    {
        let r = MoquQueue { queue: VecDeque::new(), sseq: 0, cliseq: 0 };
        assert(r.entries() =~= Seq::<(u64, ItemView)>::empty());
        r
    }

    /// Highest sequence number assigned so far.
    pub fn sseq(&self) -> (r: u64)
        ensures
            r == self.spec_sseq(),
    {
        self.sseq
    }

    /// Highest sequence number no longer retained.
    pub fn cliseq(&self) -> (r: u64)
        ensures
            r == self.spec_cliseq(),
    {
        self.cliseq
    }

    /// Number of retained items.
    pub fn len(&self) -> (r: usize)
        ensures
            r == self.entries().len(),
    {
        self.queue.len()
    }

    /// Appends `value` under the next sequence number.
    pub fn insert(&mut self, value: MoquItem)
        requires
            old(self).wf(),
            old(self).spec_sseq() < u64::MAX,
        ensures
            final(self).wf(),
            final(self).spec_sseq() == old(self).spec_sseq() + 1,
            final(self).spec_cliseq() == old(self).spec_cliseq(),
            final(self).entries() == old(self).entries().push((final(self).spec_sseq(), value@)),
    {
        let ghost before = self.queue@;
        self.sseq = self.sseq + 1;
        let entry = (self.sseq, value);
        self.queue.push_back(entry);
        assert(entries_view(self.queue@) =~= entries_view(before).push((self.sseq, entry.1@)));
    }

    /// The oldest retained entry, if any, without removing it.
    pub fn front(&self) -> (r: Option<&(u64, MoquItem)>)
        requires
            self.wf(),
        ensures
            self.entries().len() == 0 ==> r is None,
            self.entries().len() > 0 ==> (r matches Some(e) && (e.0, e.1@) == self.entries()[0]),
            r matches Some(e) ==> e.0 == self.spec_cliseq() + 1,
    {
        if self.queue.len() > 0 {
            Some(&self.queue[0])
        } else {
            None
        }
    }

    /// Drops the oldest entry and counts it as delivered; does nothing on an
    /// empty queue.
    pub fn pop(&mut self)
        requires
            old(self).wf(),
        ensures
            final(self).wf(),
            final(self).spec_sseq() == old(self).spec_sseq(),
            old(self).entries().len() == 0 ==> final(self).spec_cliseq() == old(self).spec_cliseq()
                && final(self).entries() == old(self).entries(),
            old(self).entries().len() > 0 ==> final(self).spec_cliseq() == old(self).spec_cliseq()
                + 1 && final(self).entries() == old(self).entries().drop_first(),
    {
        let ghost before = self.queue@;
        if let Some(_) = self.queue.pop_front() {
            self.cliseq = self.cliseq + 1;
            assert(entries_view(self.queue@) =~= entries_view(before).drop_first());
            assert forall|i: int| 0 <= i < self.queue@.len() implies #[trigger] self.queue@[i].0
                == self.cliseq + i + 1 by {
                assert(self.queue@[i] == before[i + 1]);
            }
        }
    }

    /// Drops every entry numbered up to `seq`, never past `sseq`: afterwards
    /// `cliseq` is the larger of its old value and `min(seq, sseq)`.
    pub fn pop_until(&mut self, seq: u64)
        requires
            old(self).wf(),
        ensures
            final(self).wf(),
            final(self).spec_sseq() == old(self).spec_sseq(),
            final(self).spec_cliseq() == acked_to(old(self).spec_cliseq(), old(self).spec_sseq(), seq),
            final(self).entries() == old(self).entries().skip(
                final(self).spec_cliseq() - old(self).spec_cliseq(),
            ),
    {
        let target: u64 = if seq < self.sseq {
            seq
        } else {
            self.sseq
        };
        let ghost start = self.entries();
        let ghost c0 = self.cliseq;
        proof {
            self.lemma_numbering();
        }
        while self.cliseq < target
            invariant
                self.wf(),
                self.sseq == old(self).spec_sseq(),
                target <= self.sseq,
                c0 == old(self).spec_cliseq(),
                start == old(self).entries(),
                start.len() == self.sseq - c0,
                c0 <= self.cliseq,
                self.cliseq <= target || self.cliseq == c0,
                self.entries() == start.skip(self.cliseq - c0),
            decreases target - self.cliseq,
        {
            let ghost prev = self.entries();
            let ghost k: int = self.cliseq - c0;
            proof {
                self.lemma_numbering();
                assert(prev == start.skip(k));
                assert(0 <= k < start.len());
                assert forall|i: int| 0 <= i < start.len() - k - 1 implies #[trigger] start.skip(k + 1)[i]
                    == start.skip(k).drop_first()[i] by {
                    assert(start.skip(k + 1)[i] == start[i + k + 1]);
                    assert(start.skip(k)[i + 1] == start[i + k + 1]);
                }
                assert(start.skip(k + 1) =~= start.skip(k).drop_first());
            }
            self.pop();
            assert(self.cliseq - c0 == k + 1);
        }
        assert(start.skip(0) =~= start);
    }
}

} // verus!
