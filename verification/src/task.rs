use vstd::prelude::*;
use crate::time::{Duration, Instant, HALF_RING};

verus! {

/// Number of tasks. Every table indexed by task has this many slots.
pub const TASK_COUNT: usize = 2;

/// The tasks of the system. The set is closed: no task is ever created at
/// run time.
#[derive(Clone, Copy, Debug, PartialEq, Eq, Structural)]
pub enum TaskId {
    /// Drives every output line high.
    TurnOn,
    /// Drives every output line low.
    TurnOff,
}

impl TaskId {
    pub open spec fn spec_ordinal(self) -> usize {
        match self {
            TaskId::TurnOn => 0,
            TaskId::TurnOff => 1,
        }
    }

    /// Position of the task in every per-task table. Among entries of equal
    /// priority the lower ordinal is dispatched first.
    #[verifier::when_used_as_spec(spec_ordinal)]
    pub fn ordinal(self) -> (i: usize)
        ensures
            i == self.spec_ordinal(),
            i < TASK_COUNT,
    {
        match self {
            TaskId::TurnOn => 0,
            TaskId::TurnOff => 1,
        }
    }

    pub open spec fn spec_from_ordinal(i: usize) -> Option<TaskId> {
        if i == 0 {
            Some(TaskId::TurnOn)
        } else if i == 1 {
            Some(TaskId::TurnOff)
        } else {
            None
        }
    }

    pub open spec fn spec_level(self) -> bool {
        self == TaskId::TurnOn
    }

    /// The level to which the task drives the output lines.
    #[verifier::when_used_as_spec(spec_level)]
    pub fn level(self) -> (high: bool)
        ensures
            high == self.spec_level(),
    {
        match self {
            TaskId::TurnOn => true,
            TaskId::TurnOff => false,
        }
    }

    /// The task at position `i`, if there is one.
    #[verifier::when_used_as_spec(spec_from_ordinal)]
    pub fn from_ordinal(i: usize) -> (t: Option<TaskId>)
        ensures
            t == TaskId::spec_from_ordinal(i),
            t is Some <==> i < TASK_COUNT,
            t is Some ==> t->0.spec_ordinal() == i,
    {
        if i == 0 {
            Some(TaskId::TurnOn)
        } else if i == 1 {
            Some(TaskId::TurnOff)
        } else {
            None
        }
    }
}

/// What is fixed about a task before the system starts.
#[derive(Clone, Copy, Debug, PartialEq, Eq, Structural)]
pub struct TaskConfig {
    /// Static priority; a larger number is dispatched first.
    pub priority: u8,
    /// Distance between two consecutive wake instants of the task.
    pub period: Duration,
    /// Distance from the start of the system to the first wake instant.
    pub phase: Duration,
}

/// The configuration of every task.
#[derive(Clone, Copy, Debug)]
pub struct TaskTable {
    pub configs: [TaskConfig; TASK_COUNT],
}

impl TaskTable {
    pub fn new(turn_on: TaskConfig, turn_off: TaskConfig) -> (table: TaskTable)
        ensures
            table.spec_config_of(TaskId::TurnOn) == turn_on,
            table.spec_config_of(TaskId::TurnOff) == turn_off,
    {
        TaskTable { configs: [turn_on, turn_off] }
    }

    pub open spec fn spec_config_of(self, task: TaskId) -> TaskConfig {
        self.configs[task.spec_ordinal() as int]
    }

    #[verifier::when_used_as_spec(spec_config_of)]
    pub fn config_of(self, task: TaskId) -> (config: TaskConfig)
        ensures
            config == self.spec_config_of(task),
    {
        self.configs[task.ordinal()]
    }

    /// The static priority of every task.
    pub open spec fn priorities(self) -> Map<TaskId, u8> {
        Map::new(|t: TaskId| true, |t: TaskId| self.spec_config_of(t).priority)
    }

    /// The period of every task.
    pub open spec fn periods(self) -> Map<TaskId, Duration> {
        Map::new(|t: TaskId| true, |t: TaskId| self.spec_config_of(t).period)
    }

    /// The table of a blinker: the lines go high every `period` ticks and low
    /// `on_time` ticks after they went high.
    pub fn blinker(period: Duration, on_time: Duration, on_priority: u8, off_priority: u8) -> (table:
        TaskTable)
        ensures
            table.spec_config_of(TaskId::TurnOn) == (TaskConfig {
                priority: on_priority,
                period,
                phase: Duration { ticks: 0 },
            }),
            table.spec_config_of(TaskId::TurnOff) == (TaskConfig {
                priority: off_priority,
                period,
                phase: on_time,
            }),
    {
        TaskTable::new(
            TaskConfig { priority: on_priority, period, phase: Duration { ticks: 0 } },
            TaskConfig { priority: off_priority, period, phase: on_time },
        )
    }

    /// Whether `p` is the highest static priority in the table: some task
    /// has it and none has a higher one.
    pub open spec fn is_highest_priority(&self, p: u8) -> bool {
        &&& forall|t: TaskId| (#[trigger] self.spec_config_of(t)).priority <= p
        &&& exists|t: TaskId| (#[trigger] self.spec_config_of(t)).priority == p
    }

    pub open spec fn spec_highest_priority(&self) -> u8 {
        choose|p: u8| self.is_highest_priority(p)
    }

    /// The highest static priority in the table.
    #[verifier::when_used_as_spec(spec_highest_priority)]
    pub fn highest_priority(&self) -> (top: u8)
        ensures
            self.is_highest_priority(top),
            top == self.spec_highest_priority(),
    {
        let mut top: u8 = self.configs[0].priority;
        assert(self.spec_config_of(TaskId::TurnOn).priority == top);
        for i in 1..TASK_COUNT
            invariant
                forall|t: TaskId|
                    t.spec_ordinal() < i ==> (#[trigger] self.spec_config_of(t)).priority <= top,
                exists|t: TaskId| (#[trigger] self.spec_config_of(t)).priority == top,
        {
            let task = TaskId::from_ordinal(i).unwrap();
            if self.configs[i].priority > top {
                top = self.configs[i].priority;
                assert(self.spec_config_of(task).priority == top);
            }
        }
        proof {
            assert forall|t: TaskId| (#[trigger] self.spec_config_of(t)).priority <= top by {
                assert(t.spec_ordinal() < TASK_COUNT);
            }
            lemma_highest_priority_is_unique(*self, top, self.spec_highest_priority());
        }
        top
    }
}

/// Whether every task of `table` has its first wake instant within the
/// horizon, less than half the ring after the start.
pub open spec fn phases_within_horizon(table: TaskTable) -> bool {
    forall|t: TaskId| (#[trigger] table.spec_config_of(t)).phase.ticks < HALF_RING
}

/// A table has one highest priority.
pub proof fn lemma_highest_priority_is_unique(table: TaskTable, p: u8, q: u8)
    requires
        table.is_highest_priority(p),
    ensures
        table.is_highest_priority(q) ==> p == q,
        table.is_highest_priority(table.spec_highest_priority()),
        table.spec_highest_priority() == p,
{
    let top = table.spec_highest_priority();
    let holds_p = choose|t: TaskId| (#[trigger] table.spec_config_of(t)).priority == p;
    if table.is_highest_priority(q) {
        let holds_q = choose|t: TaskId| (#[trigger] table.spec_config_of(t)).priority == q;
        assert(table.spec_config_of(holds_p).priority <= q);
        assert(table.spec_config_of(holds_q).priority <= p);
    }
    assert(table.is_highest_priority(top));
    let holds_top = choose|t: TaskId| (#[trigger] table.spec_config_of(t)).priority == top;
    assert(table.spec_config_of(holds_p).priority <= top);
    assert(table.spec_config_of(holds_top).priority <= p);
}

/// A pending wake-up: the task, the instant it is to run at, and its priority.
#[derive(Clone, Copy, Debug, PartialEq, Eq, Structural)]
pub struct Entry {
    pub task: TaskId,
    pub wake: Instant,
    pub priority: u8,
}

impl Entry {
    pub open spec fn spec_dispatches_before(self, other: Entry) -> bool {
        self.priority > other.priority || (self.priority == other.priority
            && self.task.spec_ordinal() < other.task.spec_ordinal())
    }

    /// Whether `self` runs before `other` when both are due in the same
    /// dispatch cycle: the higher priority first, and among equal priorities
    /// the lower ordinal.
    #[verifier::when_used_as_spec(spec_dispatches_before)]
    pub fn dispatches_before(self, other: Entry) -> (b: bool)
        ensures
            b == self.spec_dispatches_before(other),
    {
        self.priority > other.priority || (self.priority == other.priority && self.task.ordinal()
            < other.task.ordinal())
    }
}

/// Whether every entry of `entries` runs before the ones that stand behind it.
pub open spec fn in_dispatch_order(entries: Seq<Entry>) -> bool {
    forall|i: int, j: int|
        #![trigger entries[i], entries[j]]
        0 <= i < j < entries.len() ==> entries[i].spec_dispatches_before(entries[j])
}

/// In a sequence in dispatch order the priorities never rise, and entries of
/// the same priority stand by rising ordinal.
pub proof fn lemma_dispatch_order_by_priority(entries: Seq<Entry>, i: int, j: int)
    requires
        in_dispatch_order(entries),
        0 <= i < j < entries.len(),
    ensures
        entries[i].priority >= entries[j].priority,
        entries[i].priority == entries[j].priority ==> entries[i].task.spec_ordinal()
            < entries[j].task.spec_ordinal(),
        entries[i].task != entries[j].task || entries[i].priority != entries[j].priority,
{
    assert(entries[i].spec_dispatches_before(entries[j]));
}

/// In a sequence in dispatch order an entry of higher priority stands before
/// every entry of lower priority.
pub proof fn lemma_higher_priority_runs_first(entries: Seq<Entry>, i: int, j: int)
    requires
        in_dispatch_order(entries),
        0 <= i < entries.len(),
        0 <= j < entries.len(),
        entries[i].priority > entries[j].priority,
    ensures
        i < j,
{
    if j < i {
        assert(entries[j].spec_dispatches_before(entries[i]));
    }
}

/// Two sequences in dispatch order that hold the same entries are the same
/// sequence.
pub proof fn lemma_dispatch_order_is_unique(a: Seq<Entry>, b: Seq<Entry>)
    requires
        in_dispatch_order(a),
        in_dispatch_order(b),
        forall|e: Entry| a.contains(e) <==> b.contains(e),
    ensures
        a == b,
    decreases a.len(),
{
    if a.len() == 0 {
        if b.len() > 0 {
            assert(b.contains(b[0]));
            assert(a.contains(b[0]));
        }
        assert(a =~= b);
    } else {
        assert(a.contains(a[0]));
        assert(b.contains(a[0]));
        assert(b.contains(b[0]));
        assert(a.contains(b[0]));
        let i = choose|i: int| 0 <= i < a.len() && a[i] == b[0];
        let j = choose|j: int| 0 <= j < b.len() && b[j] == a[0];
        if i > 0 {
            assert(a[0].spec_dispatches_before(a[i]));
            if j > 0 {
                assert(b[0].spec_dispatches_before(b[j]));
            }
        }
        assert(a[0] == b[0]);
        let a_rest = a.drop_first();
        let b_rest = b.drop_first();
        assert(in_dispatch_order(a_rest)) by {
            assert forall|x: int, y: int| 0 <= x < y < a_rest.len() implies (#[trigger] a_rest[x]).spec_dispatches_before(
                #[trigger] a_rest[y],
            ) by {
                assert(a[x + 1].spec_dispatches_before(a[y + 1]));
            }
        }
        assert(in_dispatch_order(b_rest)) by {
            assert forall|x: int, y: int| 0 <= x < y < b_rest.len() implies (#[trigger] b_rest[x]).spec_dispatches_before(
                #[trigger] b_rest[y],
            ) by {
                assert(b[x + 1].spec_dispatches_before(b[y + 1]));
            }
        }
        assert forall|e: Entry| a_rest.contains(e) <==> b_rest.contains(e) by {
            if a_rest.contains(e) {
                let x = choose|x: int| 0 <= x < a_rest.len() && a_rest[x] == e;
                assert(a[x + 1] == e);
                assert(a[0].spec_dispatches_before(a[x + 1]));
                assert(a.contains(e));
                let y = choose|y: int| 0 <= y < b.len() && b[y] == e;
                assert(b_rest[y - 1] == e);
            }
            if b_rest.contains(e) {
                let y = choose|y: int| 0 <= y < b_rest.len() && b_rest[y] == e;
                assert(b[y + 1] == e);
                assert(b[0].spec_dispatches_before(b[y + 1]));
                assert(b.contains(e));
                let x = choose|x: int| 0 <= x < a.len() && a[x] == e;
                assert(a_rest[x - 1] == e);
            }
        }
        lemma_dispatch_order_is_unique(a_rest, b_rest);
        assert(a =~= b) by {
            assert(a.len() == b.len());
            assert forall|x: int| 0 <= x < a.len() implies a[x] == b[x] by {
                if x > 0 {
                    assert(a_rest[x - 1] == b_rest[x - 1]);
                }
            }
        }
    }
}

} // verus!
