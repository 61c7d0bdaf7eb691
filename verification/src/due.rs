use vstd::prelude::*;
use crate::task::{Entry, TaskId, TASK_COUNT};
use crate::time::Instant;

verus! {

/// The entries handed out by one dispatch cycle, in the order in which they
/// run. It holds at most one entry per task and lives entirely in place.
#[derive(Clone, Copy, Debug)]
pub struct DueList {
    entries: [Entry; TASK_COUNT],
    len: usize,
}

impl View for DueList {
    type V = Seq<Entry>;

    closed spec fn view(&self) -> Seq<Entry> {
        self.entries@.subrange(0, self.len as int)
    }
}

impl DueList {
    #[verifier::type_invariant]
    spec fn within_capacity(&self) -> bool {
        self.len <= TASK_COUNT
    }

    /// The empty list.
    pub fn new() -> (list: DueList)
        ensures
            list@ == Seq::<Entry>::empty(),
    {
        let unused = Entry { task: TaskId::TurnOn, wake: Instant { ticks: 0 }, priority: 0 };
        DueList { entries: [unused; TASK_COUNT], len: 0 }
    }

    pub fn len(&self) -> (n: usize)
        ensures
            n == self@.len(),
            n <= TASK_COUNT,
    {
        proof {
            use_type_invariant(self);
        }
        self.len
    }

    pub fn is_empty(&self) -> (b: bool)
        ensures
            b == (self@.len() == 0),
    {
        proof {
            use_type_invariant(self);
        }
        self.len == 0
    }

    /// The entry at position `i`, counting from the one that runs first.
    pub fn get(&self, i: usize) -> (e: Option<Entry>)
        ensures
            i < self@.len() ==> e == Some(self@[i as int]),
            i >= self@.len() ==> e is None,
    {
        proof {
            use_type_invariant(self);
        }
        if i < self.len {
            Some(self.entries[i])
        } else {
            None
        }
    }

    /// Puts `entry` at position `pos` and moves the entries from there on one
    /// place back.
    pub fn insert(&mut self, pos: usize, entry: Entry)
        requires
            pos <= old(self)@.len() < TASK_COUNT,
        ensures
            final(self)@ == old(self)@.insert(pos as int, entry),
    {
        proof {
            use_type_invariant(&*self);
        }
        let mut k: usize = self.len;
        while k > pos
            invariant
                pos <= k <= self.len < TASK_COUNT,
                self.len == old(self).len,
                forall|j: int| 0 <= j < k ==> self.entries[j] == old(self).entries[j],
                forall|j: int| k < j <= self.len ==> self.entries[j] == old(self).entries[j - 1],
            decreases k,
        {
            self.entries[k] = self.entries[k - 1];
            k = k - 1;
        }
        self.entries[pos] = entry;
        self.len = self.len + 1;
        assert(self@ =~= old(self)@.insert(pos as int, entry));
    }
}

} // verus!
