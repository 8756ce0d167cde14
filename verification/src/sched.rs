//! The ready queue of the stride scheduler.
//!
//! [`TaskManager::fetch`] removes and returns the entry with the minimum pass
//! value under the wraparound comparison of [`crate::stride`], breaking ties
//! by the smaller task id so the order is deterministic. Minimality is
//! guaranteed whenever all queued passes lie within one half-ring window —
//! the regime stride scheduling keeps itself in, since each enqueue advances
//! a pass by at most `STRIDE_UNIT / 2`.
use vstd::prelude::*;
use crate::stride::{pass_before, pass_lt, in_window};

verus! {

/// One queued task: its id and the pass value it was enqueued with.
#[derive(Clone, Copy, PartialEq, Eq, Structural, Debug)]
pub struct ReadyEntry {
    pub tid: usize,
    pub pass: u64,
}

/// `a` strictly precedes `b` in dispatch order.
pub open spec fn entry_before(a: ReadyEntry, b: ReadyEntry) -> bool {
    pass_before(a.pass, b.pass) || (a.pass == b.pass && a.tid < b.tid)
}

/// Every queued pass lies in the half-ring window starting at `base`.
pub open spec fn windowed(base: u64, s: Seq<ReadyEntry>) -> bool {
    forall|i: int| 0 <= i < s.len() ==> in_window(base, #[trigger] s[i].pass)
}

/// All queued passes fit in one half-ring window, so `entry_before` is a
/// strict total order on the queue.
pub open spec fn coherent(s: Seq<ReadyEntry>) -> bool {
    exists|base: u64| #[trigger] windowed(base, s)
}

/// The ready queue, ordered by ascending pass on removal.
pub struct TaskManager {
    pub entries: Vec<ReadyEntry>,
}

/// Within one window, `entry_before` mirrors the lexicographic order of
/// (distance from the base, task id).
proof fn lemma_entry_order(base: u64, a: ReadyEntry, b: ReadyEntry)
    requires
        in_window(base, a.pass),
        in_window(base, b.pass),
    ensures
        entry_before(a, b) <==> (crate::stride::ring_diff(a.pass, base)
            < crate::stride::ring_diff(b.pass, base)
            || (crate::stride::ring_diff(a.pass, base) == crate::stride::ring_diff(b.pass, base)
                && a.tid < b.tid)),
{
    crate::stride::lemma_window_order(base, a.pass, b.pass);
}

impl TaskManager {
    /// An empty ready queue.
    pub fn new() -> (s: Self)
        ensures
            s.entries@.len() == 0,
    {
        TaskManager { entries: Vec::new() }
    }

    /// Enqueue a task under the pass value it now carries.
    pub fn add(&mut self, tid: usize, pass: u64)
        ensures
            final(self).entries@ == old(self).entries@.push(ReadyEntry { tid, pass }),
    {
        self.entries.push(ReadyEntry { tid, pass });
    }

    /// Remove and return the entry minimal in dispatch order.
    ///
    /// On a nonempty queue some entry at index `i` is removed and its task id
    /// returned; whenever the queue is `coherent`, no other queued entry
    /// strictly precedes it. An empty queue yields nothing — not an error:
    /// the dispatcher idles.
    pub fn fetch(&mut self) -> (r: Option<ReadyEntry>)
        ensures
            match r {
                None => old(self).entries@.len() == 0 && final(self).entries@ == old(self).entries@,
                Some(e) => exists|i: int|
                    0 <= i < old(self).entries@.len() && old(self).entries@[i] == e
                        && final(self).entries@ == old(self).entries@.remove(i)
                        && (coherent(old(self).entries@) ==> forall|j: int|
                            0 <= j < old(self).entries@.len() && j != i
                                ==> !entry_before(#[trigger] old(self).entries@[j], e)),
            },
    {
        if self.entries.len() == 0 {
            return None;
        }
        let ghost s = self.entries@;
        let mut best: usize = 0;
        let mut idx: usize = 1;
        while idx < self.entries.len()
            invariant
                self.entries@ == s,
                0 < s.len(),
                0 <= best < idx <= s.len(),
                coherent(s) ==> forall|j: int|
                    0 <= j < idx && j != best ==> !entry_before(#[trigger] s[j], s[best as int]),
            decreases s.len() - idx,
        {
            let cand = self.entries[idx];
            let cur = self.entries[best];
            let take = if pass_lt(cand.pass, cur.pass) {
                true
            } else if cand.pass == cur.pass && cand.tid < cur.tid {
                true
            } else {
                false
            };
            proof {
                if coherent(s) {
                    let base = choose|base: u64| #[trigger] windowed(base, s);
                    assert forall|j: int|
                        0 <= j < idx + 1 && j != (if take { idx as int } else { best as int })
                            implies !entry_before(
                            #[trigger] s[j],
                            s[if take { idx as int } else { best as int }],
                        ) by {
                        lemma_entry_order(base, s[j], s[best as int]);
                        lemma_entry_order(base, s[j], s[idx as int]);
                        lemma_entry_order(base, s[idx as int], s[best as int]);
                    }
                }
            }
            if take {
                best = idx;
            }
            idx = idx + 1;
        }
        let e = self.entries[best];
        let r = self.entries.remove(best);
        proof {
            assert(old(self).entries@.remove(best as int) == self.entries@);
        }
        Some(r)
    }
}

} // verus!
