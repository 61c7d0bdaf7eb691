use vstd::prelude::*;
use vstd::set_lib::{lemma_int_range, lemma_len_subset, set_int_range};
use crate::fault::Fault;
use crate::due::DueList;
use crate::task::{
    in_dispatch_order, lemma_dispatch_order_is_unique, phases_within_horizon, Entry, TaskId,
    TaskTable, TASK_COUNT,
};
use crate::time::{Instant, HALF_RING};

verus! {

/// What a queue holds, as mathematics.
#[verifier::ext_equal]
pub struct QueueView {
    /// The pending wake instant of each task that has one.
    pub pending: Map<TaskId, Instant>,
    /// The static priority of every task.
    pub priority: Map<TaskId, u8>,
    /// The latest instant the queue has been told about.
    pub reference: Instant,
    /// Whether a dispatch cycle has taken place.
    pub started: bool,
}

impl QueueView {
    /// The pending entry of `task`.
    pub open spec fn entry_of(self, task: TaskId) -> Entry {
        Entry { task, wake: self.pending[task], priority: self.priority[task] }
    }

    /// Whether `entry` is pending.
    pub open spec fn is_pending(self, entry: Entry) -> bool {
        self.pending.contains_key(entry.task) && entry == self.entry_of(entry.task)
    }

    /// Whether `at` may be scheduled: it must lie strictly after the reference
    /// instant and less than half the ring ahead of it.
    pub open spec fn accepts(self, at: Instant) -> bool {
        self.reference.spec_is_before(at)
    }

    /// The queue with which a system with the tasks of `table` starts at
    /// `start`: every task is pending at its phase after `start`, and no
    /// dispatch cycle has taken place.
    pub open spec fn at_start(table: TaskTable, start: Instant) -> QueueView {
        QueueView {
            pending: Map::new(
                |t: TaskId| true,
                |t: TaskId| start.spec_plus(table.spec_config_of(t).phase),
            ),
            priority: table.priorities(),
            reference: start,
            started: false,
        }
    }

    /// Whether `task` is pending with a wake instant at or before `now`.
    pub open spec fn is_due(self, task: TaskId, now: Instant) -> bool {
        self.pending.contains_key(task) && self.pending[task].spec_is_at_or_before(now)
    }

    /// The tasks that are due at `now`.
    pub open spec fn due_tasks(self, now: Instant) -> Set<TaskId> {
        Set::new(|t: TaskId| self.is_due(t, now))
    }

    /// Whether `due` is the dispatch of this queue at `now`: it holds the
    /// entry of every task that is due, and no other, and an entry that runs
    /// before another stands before it. There is exactly one such sequence.
    pub open spec fn dispatches(self, now: Instant, due: Seq<Entry>) -> bool {
        &&& forall|i: int|
            #![trigger due[i]]
            0 <= i < due.len() ==> self.is_due(due[i].task, now) && due[i] == self.entry_of(
                due[i].task,
            )
        &&& forall|t: TaskId| #[trigger] self.is_due(t, now) ==> due.contains(self.entry_of(t))
        &&& in_dispatch_order(due)
    }

    /// Whether `first` is what a look at the head of the queue yields:
    /// nothing when nothing is pending, else the pending entry that is to be
    /// woken before every other.
    pub open spec fn is_first(self, first: Option<Entry>) -> bool {
        match first {
            None => self.pending.dom() =~= Set::<TaskId>::empty(),
            Some(head) => {
                &&& self.pending.contains_key(head.task)
                &&& head == self.entry_of(head.task)
                &&& forall|t: TaskId|
                    #![trigger self.pending.contains_key(t)]
                    #![trigger self.entry_of(t)]
                    self.pending.contains_key(t) && t != head.task ==> self.wakes_before(
                        head,
                        self.entry_of(t),
                    )
            },
        }
    }

    /// Whether `a` is to be woken before `b`: its wake instant is the earlier
    /// one as seen from the reference instant; at the same wake instant, it is
    /// the one that is dispatched first.
    pub open spec fn wakes_before(self, a: Entry, b: Entry) -> bool {
        let a_offset = a.wake.offset_from(self.reference);
        let b_offset = b.wake.offset_from(self.reference);
        a_offset < b_offset || (a_offset == b_offset && a.spec_dispatches_before(b))
    }
}

/// The pending wake-ups, one slot per task.
#[derive(Clone, Copy, Debug)]
pub struct TaskQueue {
    slots: [Option<Instant>; TASK_COUNT],
    priorities: [u8; TASK_COUNT],
    reference: Instant,
    started: bool,
}

impl View for TaskQueue {
    type V = QueueView;

    closed spec fn view(&self) -> QueueView {
        QueueView {
            pending: Map::new(
                |t: TaskId| self.slots[t.spec_ordinal() as int] is Some,
                |t: TaskId| self.slots[t.spec_ordinal() as int]->0,
            ),
            priority: Map::new(|t: TaskId| true, |t: TaskId| self.priorities[t.spec_ordinal() as int]),
            reference: self.reference,
            started: self.started,
        }
    }
}

impl TaskQueue {
    /// An empty queue for the tasks of `table`, with `start` as its reference
    /// instant.
    pub fn new(table: &TaskTable, start: Instant) -> (q: TaskQueue)
        ensures
            q@ == (QueueView {
                pending: Map::<TaskId, Instant>::empty(),
                priority: table.priorities(),
                reference: start,
                started: false,
            }),
    {
        let mut priorities: [u8; TASK_COUNT] = [0; TASK_COUNT];
        for i in 0..TASK_COUNT
            invariant
                forall|k: int| 0 <= k < i ==> priorities[k] == table.configs[k].priority,
        {
            priorities[i] = table.configs[i].priority;
        }
        let q = TaskQueue { slots: [None; TASK_COUNT], priorities, reference: start, started: false };
        assert(q@.pending =~= Map::<TaskId, Instant>::empty());
        assert(q@.priority =~= table.priorities());
        q
    }

    /// The queue with which the system starts at `start`: every task of
    /// `table` is pending at its phase after `start`, be that `start` itself.
    /// The first wake instants are the table's, so there is no task here that
    /// asks for the present instant. A phase of half the ring or more lies
    /// beyond the horizon and is a conflict.
    pub fn seeded(table: &TaskTable, start: Instant) -> (r: Result<TaskQueue, Fault>)
        ensures
            phases_within_horizon(*table) ==> r is Ok && r->Ok_0@ == QueueView::at_start(
                *table,
                start,
            ),
            !phases_within_horizon(*table) ==> r is Err && r->Err_0 == Fault::SchedulingConflict,
    {
        let mut q = TaskQueue::new(table, start);
        for i in 0..TASK_COUNT
            invariant
                q@.priority == table.priorities(),
                q.reference == start,
                !q.started,
                forall|t: TaskId|
                    #![trigger table.spec_config_of(t)]
                    t.spec_ordinal() < i ==> table.spec_config_of(t).phase.ticks < HALF_RING
                        && q.slots[t.spec_ordinal() as int] == Some(
                        start.spec_plus(table.spec_config_of(t).phase),
                    ),
        {
            let task = TaskId::from_ordinal(i).unwrap();
            let phase = table.config_of(task).phase;
            if phase.as_ticks() >= HALF_RING {
                assert(!(table.spec_config_of(task).phase.ticks < HALF_RING));
                return Err(Fault::SchedulingConflict);
            }
            q.slots[i] = Some(start.plus(phase));
        }
        proof {
            assert forall|t: TaskId| (#[trigger] table.spec_config_of(t)).phase.ticks
                < HALF_RING by {
                assert(t.spec_ordinal() < TASK_COUNT);
            }
            let seeded = QueueView::at_start(*table, start);
            assert forall|t: TaskId|
                #![trigger q@.pending.dom().contains(t)]
                #![trigger seeded.pending.dom().contains(t)]
                q@.pending.dom().contains(t) && q@.pending[t] == seeded.pending[t] by {
                assert(t.spec_ordinal() < TASK_COUNT);
                assert(table.spec_config_of(t).phase.ticks < HALF_RING);
            }
            assert(q@.pending.dom() =~= seeded.pending.dom());
            assert(q@.pending =~= seeded.pending);
        }
        Ok(q)
    }

    /// Sets the pending wake instant of `task` to `at`, replacing the one it
    /// had, if `at` is admitted; otherwise leaves the queue as it is.
    pub fn schedule(&mut self, task: TaskId, at: Instant) -> (r: Result<(), Fault>)
        ensures
            old(self)@.accepts(at) ==> r == Ok::<(), Fault>(()) && final(self)@ == (QueueView {
                pending: old(self)@.pending.insert(task, at),
                ..old(self)@
            }),
            !old(self)@.accepts(at) ==> r == Err::<(), Fault>(Fault::SchedulingConflict) && *final(self)
                == *old(self),
    {
        if self.reference.is_before(at) {
            self.slots[task.ordinal()] = Some(at);
            assert(self@.pending =~= old(self)@.pending.insert(task, at));
            assert(self@.priority =~= old(self)@.priority);
            Ok(())
        } else {
            Err(Fault::SchedulingConflict)
        }
    }

    /// The pending entry that is to be woken first, if any entry is pending.
    pub fn peek_earliest(&self) -> (r: Option<Entry>)
        ensures
            self@.is_first(r),
    {
        let mut best: Option<Entry> = None;
        for i in 0..TASK_COUNT
            invariant
                best is None ==> forall|t: TaskId|
                    t.spec_ordinal() < i ==> !(#[trigger] self@.pending.contains_key(t)),
                best matches Some(first) ==> {
                    &&& first.task.spec_ordinal() < i
                    &&& self@.pending.contains_key(first.task)
                    &&& first == self@.entry_of(first.task)
                    &&& forall|t: TaskId|
                        t.spec_ordinal() < i && self@.pending.contains_key(t) && t != first.task
                            ==> self@.wakes_before(first, #[trigger] self@.entry_of(t))
                },
        {
            let task = TaskId::from_ordinal(i).unwrap();
            match self.slots[i] {
                None => {},
                Some(wake) => {
                    let candidate = Entry { task, wake, priority: self.priorities[i] };
                    let replace = match best {
                        None => true,
                        Some(first) => {
                            let held: i64 = first.wake.signed_offset_from(self.reference);
                            let offered: i64 = wake.signed_offset_from(self.reference);
                            offered < held || (offered == held && candidate.dispatches_before(
                                first,
                            ))
                        },
                    };
                    if replace {
                        best = Some(candidate);
                    }
                },
            }
        }
        proof {
            if best is None {
                assert(self@.pending.dom() =~= Set::<TaskId>::empty());
            }
        }
        best
    }

    /// Takes out every entry that is due at `now` and returns them in the
    /// order in which they run. `now` becomes the reference instant.
    pub fn pop_due(&mut self, now: Instant) -> (due: DueList)
        ensures
            old(self)@.dispatches(now, due@),
            final(self)@ == (QueueView {
                pending: old(self)@.pending.remove_keys(old(self)@.due_tasks(now)),
                reference: now,
                started: true,
                ..old(self)@
            }),
    {
        let ghost before = self@;
        let mut due = DueList::new();
        for i in 0..TASK_COUNT
            invariant
                self.priorities == old(self).priorities,
                before == old(self)@,
                due@.len() <= i,
                forall|k: int| i <= k < TASK_COUNT ==> self.slots[k] == old(self).slots[k],
                forall|t: TaskId|
                    #![trigger before.is_due(t, now)]
                    t.spec_ordinal() < i ==> self.slots[t.spec_ordinal() as int] == (if before.is_due(
                        t,
                        now,
                    ) {
                        None
                    } else {
                        old(self).slots[t.spec_ordinal() as int]
                    }),
                forall|k: int|
                    #![trigger due@[k]]
                    0 <= k < due@.len() ==> due@[k].task.spec_ordinal() < i && before.is_due(
                        due@[k].task,
                        now,
                    ) && due@[k] == before.entry_of(due@[k].task),
                forall|t: TaskId|
                    t.spec_ordinal() < i && #[trigger] before.is_due(t, now) ==> due@.contains(
                        before.entry_of(t),
                    ),
                forall|a: int, b: int|
                    #![trigger due@[a], due@[b]]
                    0 <= a < b < due@.len() ==> due@[a].spec_dispatches_before(due@[b]),
        {
            let task = TaskId::from_ordinal(i).unwrap();
            match self.slots[i] {
                None => {},
                Some(wake) => {
                    if wake.is_at_or_before(now) {
                        let entry = Entry { task, wake, priority: self.priorities[i] };
                        let ghost listed = due@;
                        let mut pos: usize = 0;
                        while pos < due.len() && due.get(pos).unwrap().priority >= entry.priority
                            invariant
                                pos <= due@.len(),
                                forall|k: int|
                                    #![trigger due@[k]]
                                    0 <= k < pos ==> due@[k].priority >= entry.priority,
                            decreases due@.len() - pos,
                        {
                            pos = pos + 1;
                        }
                        due.insert(pos, entry);
                        self.slots[i] = None;
                        assert(due@[pos as int] == entry);
                        assert forall|t: TaskId|
                            t.spec_ordinal() < i + 1 && #[trigger] before.is_due(
                                t,
                                now,
                            ) implies due@.contains(before.entry_of(t)) by {
                            if t == task {
                                assert(due@[pos as int] == before.entry_of(t));
                            } else {
                                let k = choose|k: int|
                                    0 <= k < listed.len() && listed[k] == before.entry_of(t);
                                if k < pos {
                                    assert(due@[k] == listed[k]);
                                } else {
                                    assert(due@[k + 1] == listed[k]);
                                }
                            }
                        }
                    }
                },
            }
        }
        self.reference = now;
        self.started = true;
        proof {
            let rest = before.pending.remove_keys(before.due_tasks(now));
            assert forall|t: TaskId|
                #![trigger self@.pending.dom().contains(t)]
                #![trigger rest.dom().contains(t)]
                self@.pending.dom().contains(t) == rest.dom().contains(t) && (
                self@.pending.dom().contains(t) ==> self@.pending[t] == rest[t]) by {
                assert(t.spec_ordinal() < TASK_COUNT);
                assert(before.due_tasks(now).contains(t) == before.is_due(t, now));
            }
            assert(self@.pending.dom() =~= rest.dom());
            assert(self@.pending =~= rest);
        }
        assert(self@.priority =~= before.priority);
        due
    }

    /// The pending wake instant of `task`, if it has one.
    pub fn wake_of(&self, task: TaskId) -> (r: Option<Instant>)
        ensures
            r is Some <==> self@.pending.contains_key(task),
            r is Some ==> r->0 == self@.pending[task],
    {
        self.slots[task.ordinal()]
    }

    /// The static priority of `task`.
    pub fn priority_of(&self, task: TaskId) -> (p: u8)
        ensures
            p == self@.priority[task],
    {
        self.priorities[task.ordinal()]
    }

    /// The instant against which new wake instants are checked.
    pub fn reference(&self) -> (t: Instant)
        ensures
            t == self@.reference,
    {
        self.reference
    }

    /// Whether a dispatch cycle has taken place.
    pub fn has_started(&self) -> (b: bool)
        ensures
            b == self@.started,
    {
        self.started
    }
}

/// What a dispatch returns is determined by the queue and the instant: two
/// sequences that both are the dispatch of `q` at `now` are equal.
pub proof fn lemma_dispatch_is_unique(q: QueueView, now: Instant, a: Seq<Entry>, b: Seq<Entry>)
    requires
        q.dispatches(now, a),
        q.dispatches(now, b),
    ensures
        a == b,
{
    assert forall|e: Entry| a.contains(e) <==> b.contains(e) by {
        if a.contains(e) {
            let i = choose|i: int| 0 <= i < a.len() && a[i] == e;
            assert(q.is_due(a[i].task, now));
        }
        if b.contains(e) {
            let i = choose|i: int| 0 <= i < b.len() && b[i] == e;
            assert(q.is_due(b[i].task, now));
        }
    }
    lemma_dispatch_order_is_unique(a, b);
}

/// A dispatch holds at most one entry per task.
pub proof fn lemma_dispatch_has_one_entry_per_task(
    q: QueueView,
    now: Instant,
    due: Seq<Entry>,
    i: int,
    j: int,
)
    requires
        q.dispatches(now, due),
        0 <= i < due.len(),
        0 <= j < due.len(),
        due[i].task == due[j].task,
    ensures
        i == j,
{
    assert(due[i] == q.entry_of(due[i].task));
    assert(due[j] == q.entry_of(due[j].task));
    if i < j {
        assert(due[i].spec_dispatches_before(due[j]));
    }
    if j < i {
        assert(due[j].spec_dispatches_before(due[i]));
    }
}

/// A dispatch never holds more entries than there are tasks.
pub proof fn lemma_dispatch_fits_capacity(q: QueueView, now: Instant, due: Seq<Entry>)
    requires
        q.dispatches(now, due),
    ensures
        due.len() <= TASK_COUNT,
{
    let ordinals = Seq::new(due.len(), |i: int| due[i].task.spec_ordinal() as int);
    assert forall|i: int, j: int|
        0 <= i < ordinals.len() && 0 <= j < ordinals.len() && i != j implies ordinals[i]
        != ordinals[j] by {
        if due[i].task == due[j].task {
            lemma_dispatch_has_one_entry_per_task(q, now, due, i, j);
        }
    }
    ordinals.unique_seq_to_set();
    let slots = set_int_range(0, TASK_COUNT as int);
    lemma_int_range(0, TASK_COUNT as int);
    assert forall|o: int| ordinals.to_set().contains(o) implies slots.contains(o) by {
        let i = choose|i: int| 0 <= i < ordinals.len() && ordinals[i] == o;
        assert(due[i].task.spec_ordinal() < TASK_COUNT);
    }
    lemma_len_subset(ordinals.to_set(), slots);
}

/// No task has two pending entries.
pub proof fn lemma_one_pending_entry_per_task(q: QueueView, a: Entry, b: Entry)
    requires
        q.is_pending(a),
        q.is_pending(b),
        a.task == b.task,
    ensures
        a == b,
{
}

/// Scheduling a task that is already pending replaces its entry: the same
/// tasks are pending afterwards, and the task has the new wake instant only.
pub proof fn lemma_schedule_replaces(q: QueueView, task: TaskId, at: Instant)
    requires
        q.pending.contains_key(task),
    ensures
        q.pending.insert(task, at).dom() == q.pending.dom(),
        q.pending.insert(task, at)[task] == at,
        forall|t: TaskId| t != task && q.pending.contains_key(t) ==> q.pending.insert(task, at)[t]
            == q.pending[t],
{
    assert(q.pending.insert(task, at).dom() =~= q.pending.dom());
}

/// The head of a queue is determined by the queue.
pub proof fn lemma_first_is_unique(q: QueueView, a: Option<Entry>, b: Option<Entry>)
    requires
        q.is_first(a),
        q.is_first(b),
    ensures
        a == b,
{
    match (a, b) {
        (Some(x), Some(y)) => {
            if x.task != y.task {
                assert(q.wakes_before(x, q.entry_of(y.task)));
                assert(q.wakes_before(y, q.entry_of(x.task)));
            }
        },
        (Some(x), None) => {
            assert(q.pending.dom().contains(x.task));
        },
        (None, Some(y)) => {
            assert(q.pending.dom().contains(y.task));
        },
        (None, None) => {},
    }
}

/// While every pending wake instant lies at or after the reference instant,
/// the head of the queue is an entry before whose wake instant no other
/// pending wake instant comes.
pub proof fn lemma_first_wakes_earliest(q: QueueView, head: Entry, task: TaskId)
    requires
        q.is_first(Some(head)),
        q.pending.contains_key(task),
        q.reference.spec_is_at_or_before(head.wake),
        q.reference.spec_is_at_or_before(q.pending[task]),
    ensures
        !q.pending[task].spec_is_before(head.wake),
{
    if task != head.task {
        assert(q.wakes_before(head, q.entry_of(task)));
    }
}

} // verus!
