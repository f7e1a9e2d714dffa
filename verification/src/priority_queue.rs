//! A min-keyed ready queue of `(task id, priority)` entries.
//!
//! Duplicate ids are allowed (a task is re-queued on every wake), and ties
//! between equal priorities are broken by insertion order, first in first
//! out, so that scheduling is deterministic.

use vstd::prelude::*;

verus! {

/// Index `i` holds the entry `pop` removes: its priority is minimal, and it
/// is the earliest inserted entry with that priority.
pub open spec fn is_first_min(s: Seq<(u64, u64)>, i: int) -> bool {
    &&& 0 <= i < s.len()
    &&& forall|j: int| 0 <= j < s.len() ==> s[i].1 <= (#[trigger] s[j]).1
    &&& forall|j: int| 0 <= j < i ==> s[i].1 < (#[trigger] s[j]).1
}

/// Whether some entry of the queue carries the task id `id`.
pub open spec fn queue_has_id(s: Seq<(u64, u64)>, id: u64) -> bool {
    exists|j: int| 0 <= j < s.len() && (#[trigger] s[j]).0 == id
}

/// A min-queue of `(task id, priority tick)` entries, viewed as the sequence
/// of entries in insertion order.
pub struct PriorityQueue {
    entries: Vec<(u64, u64)>,
}

impl View for PriorityQueue {
    type V = Seq<(u64, u64)>;

    closed spec fn view(&self) -> Seq<(u64, u64)> {
        self.entries@
    }
}

impl PriorityQueue {
    /// An empty queue.
    pub fn new() -> (q: PriorityQueue)
        ensures
            q@ == Seq::<(u64, u64)>::empty(),
    {
        PriorityQueue { entries: Vec::new() }
    }

    /// Append an entry; it is popped only after every entry with a strictly
    /// smaller priority and every earlier entry with the same priority.
    pub fn push(&mut self, item: u64, priority: u64)
        ensures
            final(self)@ == old(self)@.push((item, priority)),
    {
        self.entries.push((item, priority));
    }

    /// Remove and return an entry of minimal priority, the earliest inserted
    /// among equals; an empty queue yields `None`.
    pub fn pop(&mut self) -> (r: Option<(u64, u64)>)
        ensures
            match r {
                None => old(self)@.len() == 0 && final(self)@ == old(self)@,
                Some(entry) => exists|i: int|
                    {
                        &&& #[trigger] is_first_min(old(self)@, i)
                        &&& entry == old(self)@[i]
                        &&& final(self)@ == old(self)@.remove(i)
                    },
            },
    {
        if self.entries.len() == 0 {
            return None;
        }
        let mut best: usize = 0;
        let mut k: usize = 1;
        while k < self.entries.len()
            invariant
                0 <= best < k <= self.entries.len(),
                forall|j: int| 0 <= j < k ==> self.entries@[best as int].1 <= (#[trigger] self.entries@[j]).1,
                forall|j: int| 0 <= j < best ==> self.entries@[best as int].1 < (#[trigger] self.entries@[j]).1,
            decreases self.entries.len() - k,
        {
            if self.entries[k].1 < self.entries[best].1 {
                best = k;
            }
            k = k + 1;
        }
        let entry = self.entries.remove(best);
        proof {
            assert(is_first_min(old(self)@, best as int));
        }
        Some(entry)
    }

    /// Whether the queue holds no entries.
    pub fn is_empty(&self) -> (r: bool)
        ensures
            r == (self@.len() == 0),
    {
        self.entries.len() == 0
    }

    /// The number of entries, duplicates included.
    pub fn len(&self) -> (r: usize)
        ensures
            r == self@.len(),
    {
        self.entries.len()
    }
}

/// At most one index satisfies `is_first_min`, so `pop`'s contract names
/// the removed entry exactly.
pub proof fn lemma_first_min_unique(s: Seq<(u64, u64)>, i: int, k: int)
    requires
        is_first_min(s, i),
        is_first_min(s, k),
    ensures
        i == k,
{
    if i < k {
        assert(s[i].1 <= s[k].1);
        assert(s[k].1 < s[i].1);
    }
    if k < i {
        assert(s[k].1 <= s[i].1);
        assert(s[i].1 < s[k].1);
    }
}

/// Law: a popped entry beats every entry of higher priority. If any entry's
/// priority lies below `bound`, the entry `pop` removes lies below it too;
/// with finite deadlines keyed below the infinite sentinel (see
/// `deadline::lemma_finite_scheduled_before_infinite`), every
/// finite-deadline task is polled before any task queued at the sentinel.
pub proof fn lemma_pop_prefers_lower(s: Seq<(u64, u64)>, i: int, bound: u64)
    requires
        is_first_min(s, i),
        exists|j: int| 0 <= j < s.len() && (#[trigger] s[j]).1 < bound,
    ensures
        s[i].1 < bound,
{
    let j = choose|j: int| 0 <= j < s.len() && (#[trigger] s[j]).1 < bound;
    assert(s[i].1 <= s[j].1);
}

/// Removing the queue entry at index `i` keeps every id that some other
/// entry carries.
pub proof fn lemma_remove_keeps_other_ids(s: Seq<(u64, u64)>, i: int, id: u64)
    requires
        0 <= i < s.len(),
        exists|j: int| 0 <= j < s.len() && j != i && (#[trigger] s[j]).0 == id,
    ensures
        queue_has_id(s.remove(i), id),
{
    let j = choose|j: int| 0 <= j < s.len() && j != i && (#[trigger] s[j]).0 == id;
    if j < i {
        assert(s.remove(i)[j].0 == id);
    } else {
        assert(s.remove(i)[j - 1].0 == id);
    }
}

} // verus!
