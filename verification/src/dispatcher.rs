use vstd::prelude::*;
use crate::body::run_body;
use crate::due::DueList;
use crate::fault::Fault;
use crate::led::LedBank;
use crate::queue::{QueueView, TaskQueue};
use crate::resource::ResourceTable;
use crate::task::{phases_within_horizon, Entry, TaskId, TaskTable};
use crate::time::{lemma_repeated_plus_has_no_drift, Duration, Instant, MonotonicClock};

verus! {

/// What one dispatch cycle did.
#[derive(Clone, Copy, Debug)]
pub struct Cycle {
    /// The entries whose bodies ran, in the order in which they ran.
    pub ran: DueList,
    /// The instant for which the comparator is to be armed now; `None` when
    /// nothing is pending.
    pub next_wake: Option<Instant>,
}

/// What a dispatcher holds, as mathematics.
#[verifier::ext_equal]
pub struct DispatcherView {
    /// Whether the clock is enabled.
    pub clock_enabled: bool,
    /// The pending wake-ups.
    pub queue: QueueView,
    /// The period of every task.
    pub period: Map<TaskId, Duration>,
    /// The level of every output line.
    pub levels: Seq<bool>,
    /// The ceiling of the output bank: the priority at or above which code
    /// must run to reach it.
    pub ceiling: u8,
    /// The entry for whose wake instant the comparator is armed.
    pub armed: Option<Entry>,
}

impl DispatcherView {
    /// The wake instant that `task` asks for when its pending entry runs: one
    /// period after the instant the entry was scheduled for.
    pub open spec fn next_wake_of(self, task: TaskId) -> Instant {
        self.queue.pending[task].spec_plus(self.period[task])
    }

    /// Whether every task that is due at `now` asks for a wake instant that
    /// the queue admits after a dispatch at `now`.
    pub open spec fn can_reschedule(self, now: Instant) -> bool {
        forall|t: TaskId| #[trigger]
            self.queue.is_due(t, now) ==> now.spec_is_before(self.next_wake_of(t))
    }

    /// The pending wake instants after a dispatch cycle at `now`: every task
    /// that was due has moved on by its period; the others stay.
    pub open spec fn pending_after(self, now: Instant) -> Map<TaskId, Instant> {
        Map::new(
            |t: TaskId| self.queue.pending.contains_key(t),
            |t: TaskId|
                if self.queue.is_due(t, now) {
                    self.next_wake_of(t)
                } else {
                    self.queue.pending[t]
                },
        )
    }

    /// This state with `pending` in place of its pending wake instants.
    pub open spec fn with_pending(self, pending: Map<TaskId, Instant>) -> DispatcherView {
        DispatcherView { queue: QueueView { pending, ..self.queue }, ..self }
    }

    /// The pending wake instants after one dispatch cycle at each instant of
    /// `fires`, in turn.
    pub open spec fn pending_after_all(self, fires: Seq<Instant>) -> Map<TaskId, Instant>
        decreases fires.len(),
    {
        if fires.len() == 0 {
            self.queue.pending
        } else {
            self.with_pending(self.pending_after_all(fires.drop_last())).pending_after(fires.last())
        }
    }

    /// Whether `task` is due in cycle `i` of the cycles at `fires`.
    pub open spec fn is_due_in_cycle(self, fires: Seq<Instant>, i: int, task: TaskId) -> bool {
        self.with_pending(self.pending_after_all(fires.take(i))).queue.is_due(task, fires[i])
    }

    /// The levels of the lines after the bodies of `ran` have run in order.
    pub open spec fn levels_after(self, ran: Seq<Entry>) -> Seq<bool> {
        if ran.len() == 0 {
            self.levels
        } else {
            LedBank::uniform(ran.last().task.spec_level())
        }
    }

    /// The state in which a system with the tasks of `table` starts at
    /// `start`, with the comparator armed for `armed`: the clock runs, every
    /// line is low, every task is pending at its phase after `start`, and the
    /// ceiling of the output bank is the highest priority of the table, since
    /// every task drives the bank.
    pub open spec fn at_boot(
        table: TaskTable,
        start: Instant,
        armed: Option<Entry>,
    ) -> DispatcherView {
        DispatcherView {
            clock_enabled: true,
            queue: QueueView::at_start(table, start),
            period: table.periods(),
            levels: LedBank::uniform(false),
            ceiling: table.spec_highest_priority(),
            armed,
        }
    }

    /// The state after a dispatch cycle at `now` in which the bodies of `ran`
    /// have run and which has left the comparator armed for `armed`. The
    /// clock, the periods and the ceiling are as before.
    pub open spec fn after_cycle(
        self,
        now: Instant,
        ran: Seq<Entry>,
        armed: Option<Entry>,
    ) -> DispatcherView {
        DispatcherView {
            queue: QueueView {
                pending: self.pending_after(now),
                reference: now,
                started: true,
                ..self.queue
            },
            levels: self.levels_after(ran),
            armed,
            ..self
        }
    }
}

/// The link between the queue and the hardware comparator.
#[derive(Clone, Copy, Debug)]
pub struct Dispatcher {
    clock: MonotonicClock,
    table: TaskTable,
    queue: TaskQueue,
    resources: ResourceTable,
    armed: Option<Entry>,
}

impl View for Dispatcher {
    type V = DispatcherView;

    closed spec fn view(&self) -> DispatcherView {
        DispatcherView {
            clock_enabled: self.clock.enabled,
            queue: self.queue@,
            period: self.table.periods(),
            levels: self.resources.levels(),
            ceiling: self.resources.spec_ceiling(),
            armed: self.armed,
        }
    }
}

impl Dispatcher {
    #[verifier::type_invariant]
    spec fn consistent(&self) -> bool {
        &&& self.clock.enabled
        &&& self.queue@.priority == self.table.priorities()
        &&& self.queue@.is_first(self.armed)
        &&& forall|t: TaskId| self.queue@.pending.contains_key(t)
        &&& self.resources.spec_ceiling() == self.table.spec_highest_priority()
    }

    /// Runs once at boot, with `count` just read from the counter: enables
    /// the clock, puts every line low, and schedules the first wake instant
    /// of every task, each at its phase after the start.
    pub fn init(table: TaskTable, count: u32) -> (r: Result<Dispatcher, Fault>)
        ensures
            phases_within_horizon(table) ==> {
                &&& r is Ok
                &&& r->Ok_0@ == DispatcherView::at_boot(
                    table,
                    Instant { ticks: count },
                    r->Ok_0@.armed,
                )
                &&& r->Ok_0@.queue.is_first(r->Ok_0@.armed)
                &&& r->Ok_0@.armed is Some
            },
            !phases_within_horizon(table) ==> r is Err && r->Err_0 == Fault::SchedulingConflict,
    {
        let mut clock = MonotonicClock::new();
        clock.enable();
        let start = match clock.now(count) {
            Ok(start) => start,
            Err(fault) => {
                return Err(fault);
            },
        };
        let queue = match TaskQueue::seeded(&table, start) {
            Ok(queue) => queue,
            Err(fault) => {
                return Err(fault);
            },
        };
        let resources = ResourceTable::new(LedBank::new(), &table);
        let armed = queue.peek_earliest();
        proof {
            assert(queue@.pending.contains_key(TaskId::TurnOn));
        }
        let dispatcher = Dispatcher { clock, table, queue, resources, armed };
        Ok(dispatcher)
    }

    /// One dispatch cycle, with `count` just read from the counter: takes the
    /// due entries out of the queue, runs their bodies in dispatch order,
    /// schedules each task again one period after the instant it had been
    /// scheduled for, and arms the comparator for the earliest pending entry.
    /// If a task asks for a wake instant that the queue does not admit,
    /// nothing is changed and the conflict is reported.
    pub fn on_fire(&mut self, count: u32) -> (r: Result<Cycle, Fault>)
        ensures
            old(self)@.can_reschedule(Instant { ticks: count }) ==> {
                &&& r is Ok
                &&& old(self)@.queue.dispatches(Instant { ticks: count }, r->Ok_0.ran@)
                &&& final(self)@ == old(self)@.after_cycle(
                    Instant { ticks: count },
                    r->Ok_0.ran@,
                    final(self)@.armed,
                )
                &&& final(self)@.queue.is_first(final(self)@.armed)
                &&& final(self)@.armed is Some
                &&& r->Ok_0.next_wake == Some(final(self)@.armed->0.wake)
            },
            !old(self)@.can_reschedule(Instant { ticks: count }) ==> {
                &&& r is Err
                &&& r->Err_0 == Fault::SchedulingConflict
                &&& *final(self) == *old(self)
            },
    {
        proof {
            use_type_invariant(&*self);
        }
        let now = match self.clock.now(count) {
            Ok(now) => now,
            Err(fault) => {
                return Err(fault);
            },
        };
        let ghost before = self@;
        let level = self.table.highest_priority();
        let mut queue = self.queue;
        let mut resources = self.resources;
        let due = queue.pop_due(now);
        let ghost popped = queue@;
        let mut k: usize = 0;
        while k < due.len()
            invariant
                k <= due@.len(),
                now == (Instant { ticks: count }),
                before == old(self)@,
                *self == *old(self),
                before.queue == self.queue@,
                before.period == self.table.periods(),
                before.queue.dispatches(now, due@),
                resources.spec_permits(level),
                resources.spec_ceiling() == self.resources.spec_ceiling(),
                resources.levels() == before.levels_after(due@.take(k as int)),
                queue@.reference == now,
                queue@.started,
                queue@.priority == before.queue.priority,
                forall|j: int|
                    #![trigger due@[j]]
                    0 <= j < k ==> queue@.pending.contains_key(due@[j].task)
                        && queue@.pending[due@[j].task] == before.next_wake_of(due@[j].task)
                        && now.spec_is_before(before.next_wake_of(due@[j].task)),
                forall|j: int|
                    #![trigger due@[j]]
                    k <= j < due@.len() ==> !queue@.pending.contains_key(due@[j].task),
                forall|t: TaskId|
                    #![trigger before.queue.is_due(t, now)]
                    !before.queue.is_due(t, now) ==> (queue@.pending.contains_key(t)
                        <==> before.queue.pending.contains_key(t)) && (queue@.pending.contains_key(t)
                        ==> queue@.pending[t] == before.queue.pending[t]),
            decreases due@.len() - k,
        {
            let entry = due.get(k).unwrap();
            let period = self.table.config_of(entry.task).period;
            let next = run_body(entry.task, resources.claim(level), entry.wake, period);
            assert(before.queue.is_due(entry.task, now));
            assert(next == before.next_wake_of(entry.task));
            match queue.schedule(entry.task, next) {
                Ok(()) => {},
                Err(fault) => {
                    return Err(fault);
                },
            }
            proof {
                assert(due@.take(k + 1).last() == entry);
                assert forall|j: int| 0 <= j < k implies due@[j].task != entry.task by {
                    assert(due@[j].spec_dispatches_before(due@[k as int]));
                }
                assert forall|j: int| k < j < due@.len() implies due@[j].task != entry.task by {
                    assert(due@[k as int].spec_dispatches_before(due@[j]));
                }
            }
            k = k + 1;
        }
        let armed = queue.peek_earliest();
        proof {
            assert(due@.take(k as int) =~= due@);
            assert forall|t: TaskId| #[trigger] before.queue.is_due(t, now) implies now.spec_is_before(
                before.next_wake_of(t),
            ) && queue@.pending.contains_key(t) && queue@.pending[t] == before.next_wake_of(t) by {
                let j = choose|j: int| 0 <= j < due@.len() && due@[j] == before.queue.entry_of(t);
                assert(due@[j].task == t);
            }
            let moved = before.pending_after(now);
            assert forall|t: TaskId|
                #![trigger queue@.pending.dom().contains(t)]
                #![trigger moved.dom().contains(t)]
                queue@.pending.dom().contains(t) == moved.dom().contains(t) && (
                queue@.pending.dom().contains(t) ==> queue@.pending[t] == moved[t]) by {
                if !before.queue.is_due(t, now) {
                    assert(popped.pending.contains_key(t) == before.queue.pending.contains_key(t));
                }
            }
            assert(queue@.pending.dom() =~= moved.dom());
            assert(queue@.pending =~= moved);
        }
        proof {
            assert(queue@.pending.contains_key(TaskId::TurnOn));
        }
        *self = Dispatcher { clock: self.clock, table: self.table, queue, resources, armed };
        Ok(Cycle {
            ran: due,
            next_wake: match armed {
                Some(head) => Some(head.wake),
                None => None,
            },
        })
    }

    /// The entry for whose wake instant the comparator is armed.
    pub fn armed(&self) -> (head: Option<Entry>)
        ensures
            head == self@.armed,
            head is Some,
            self@.queue.is_first(head),
            forall|t: TaskId| self@.queue.pending.contains_key(t),
    {
        proof {
            use_type_invariant(self);
            assert(self.queue@.pending.contains_key(TaskId::TurnOn));
        }
        self.armed
    }

    /// The clock, which is enabled.
    pub fn clock(&self) -> (clock: MonotonicClock)
        ensures
            clock.enabled,
            clock.enabled == self@.clock_enabled,
    {
        proof {
            use_type_invariant(self);
        }
        self.clock
    }

    /// The ceiling of the output bank, which is the highest priority of the
    /// task table.
    pub fn ceiling(&self) -> (c: u8)
        ensures
            c == self@.ceiling,
    {
        self.resources.ceiling()
    }

    /// A copy of the output bank as it stands.
    pub fn leds(&self) -> (leds: LedBank)
        ensures
            leds@ == self@.levels,
    {
        self.resources.snapshot()
    }

    /// A copy of the queue as it stands.
    pub fn queue(&self) -> (queue: TaskQueue)
        ensures
            queue@ == self@.queue,
    {
        self.queue
    }
}

/// A task that is pending before a dispatch cycle is pending after it, and
/// no other: a cycle replaces the entries it runs.
pub proof fn lemma_cycle_keeps_tasks_pending(d: DispatcherView, now: Instant)
    ensures
        d.pending_after(now).dom() == d.queue.pending.dom(),
{
    assert(d.pending_after(now).dom() =~= d.queue.pending.dom());
}

/// The wake instant a task gets in a dispatch cycle depends on the instant it
/// had been scheduled for and on its period, not on the instant at which the
/// cycle takes place.
pub proof fn lemma_next_wake_ignores_fire_time(
    d: DispatcherView,
    task: TaskId,
    now: Instant,
    later: Instant,
)
    requires
        d.queue.is_due(task, now),
        d.queue.is_due(task, later),
    ensures
        d.pending_after(now)[task] == d.pending_after(later)[task],
        d.pending_after(now)[task] == d.queue.pending[task].spec_plus(d.period[task]),
{
}

/// A task that runs in each of a series of dispatch cycles is scheduled, after
/// them, for the instant that lies as many periods after its first wake
/// instant as there were cycles, whenever the cycles took place.
pub proof fn lemma_cycles_have_no_drift(d: DispatcherView, fires: Seq<Instant>, task: TaskId)
    requires
        d.queue.pending.contains_key(task),
        forall|i: int| 0 <= i < fires.len() ==> #[trigger] d.is_due_in_cycle(fires, i, task),
    ensures
        d.pending_after_all(fires).contains_key(task),
        d.pending_after_all(fires)[task] == d.queue.pending[task].plus_repeated(
            d.period[task],
            fires.len(),
        ),
        d.pending_after_all(fires)[task] == Instant::at(
            d.queue.pending[task].ticks + fires.len() * d.period[task].ticks,
        ),
    decreases fires.len(),
{
    let first = d.queue.pending[task];
    let period = d.period[task];
    if fires.len() > 0 {
        let earlier = fires.drop_last();
        let last = fires.len() - 1;
        assert forall|i: int| 0 <= i < earlier.len() implies #[trigger] d.is_due_in_cycle(
            earlier,
            i,
            task,
        ) by {
            assert(d.is_due_in_cycle(fires, i, task));
            assert(earlier.take(i) =~= fires.take(i));
        }
        lemma_cycles_have_no_drift(d, earlier, task);
        assert(d.is_due_in_cycle(fires, last, task));
        assert(fires.take(last) =~= earlier);
    }
    lemma_repeated_plus_has_no_drift(first, period, fires.len());
}

} // verus!
