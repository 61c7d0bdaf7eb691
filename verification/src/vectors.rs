use vstd::prelude::*;
use crate::task::{TaskId, TaskTable, TASK_COUNT};

verus! {

/// Which dispatch line serves which task.
///
/// A dispatch line is an interrupt line that no peripheral drives; it is
/// pended by software to run tasks at one priority level. Tasks of the same
/// priority share a line, tasks of different priorities never do, so the
/// system claims as many lines as there are priority levels in use.
#[derive(Clone, Copy, Debug)]
pub struct VectorMap {
    lines: [usize; TASK_COUNT],
    used: usize,
}

/// Whether no task with a lower ordinal has the priority of `task`.
pub open spec fn opens_level(table: TaskTable, task: TaskId) -> bool {
    forall|t: TaskId|
        t.spec_ordinal() < task.spec_ordinal() ==> (#[trigger] table.spec_config_of(t)).priority
            != table.spec_config_of(task).priority
}

impl VectorMap {
    pub closed spec fn spec_line_of(&self, task: TaskId) -> usize {
        self.lines[task.spec_ordinal() as int]
    }

    pub closed spec fn spec_used(&self) -> usize {
        self.used
    }

    /// Whether `line` serves one of the first `count` tasks.
    pub open spec fn is_in_use(&self, line: usize, count: usize) -> bool {
        exists|t: TaskId| t.spec_ordinal() < count && #[trigger] self.spec_line_of(t) == line
    }

    /// Whether this is the assignment of lines to the tasks of `table`: the
    /// lines `0 .. used` are in use, each by the tasks of one priority level,
    /// and the levels are numbered in the order in which the tasks, taken by
    /// ordinal, bring them up.
    pub open spec fn serves(&self, table: TaskTable) -> bool {
        &&& self.spec_used() <= TASK_COUNT
        &&& forall|t: TaskId| #[trigger] self.spec_line_of(t) < self.spec_used()
        &&& forall|t: TaskId, u: TaskId|
            #![trigger self.spec_line_of(t), self.spec_line_of(u)]
            self.spec_line_of(t) == self.spec_line_of(u) <==> table.spec_config_of(t).priority
                == table.spec_config_of(u).priority
        &&& forall|line: usize| line < self.spec_used() ==> #[trigger] self.is_in_use(line, TASK_COUNT)
        &&& forall|t: TaskId, u: TaskId|
            #![trigger self.spec_line_of(t), self.spec_line_of(u)]
            opens_level(table, t) && opens_level(table, u) && t.spec_ordinal() < u.spec_ordinal()
                ==> self.spec_line_of(t) < self.spec_line_of(u)
    }

    /// Assigns a dispatch line to every task of `table`.
    pub fn assign(table: &TaskTable) -> (map: VectorMap)
        ensures
            map.serves(*table),
    {
        let mut map = VectorMap { lines: [0; TASK_COUNT], used: 0 };
        let mut i: usize = 0;
        while i < TASK_COUNT
            invariant
                i <= TASK_COUNT,
                map.used <= i,
                forall|t: TaskId|
                    t.spec_ordinal() < i ==> #[trigger] map.spec_line_of(t) < map.used,
                forall|t: TaskId, u: TaskId|
                    #![trigger map.spec_line_of(t), map.spec_line_of(u)]
                    t.spec_ordinal() < i && u.spec_ordinal() < i ==> (map.spec_line_of(t)
                        == map.spec_line_of(u) <==> table.spec_config_of(t).priority
                        == table.spec_config_of(u).priority),
                forall|line: usize| line < map.used ==> #[trigger] map.is_in_use(line, i),
                forall|t: TaskId, u: TaskId|
                    #![trigger map.spec_line_of(t), map.spec_line_of(u)]
                    u.spec_ordinal() < i && opens_level(*table, t) && opens_level(*table, u)
                        && t.spec_ordinal() < u.spec_ordinal() ==> map.spec_line_of(t)
                        < map.spec_line_of(u),
            decreases TASK_COUNT - i,
        {
            let task = TaskId::from_ordinal(i).unwrap();
            let priority = table.config_of(task).priority;
            let mut shared: Option<usize> = None;
            for j in 0..i
                invariant
                    i < TASK_COUNT,
                    task.spec_ordinal() == i,
                    priority == table.spec_config_of(task).priority,
                    shared is None ==> forall|t: TaskId|
                        t.spec_ordinal() < j ==> (#[trigger] table.spec_config_of(t)).priority
                            != priority,
                    shared matches Some(line) ==> exists|t: TaskId|
                        t.spec_ordinal() < i && #[trigger] map.spec_line_of(t) == line
                            && table.spec_config_of(t).priority == priority,
            {
                let other = TaskId::from_ordinal(j).unwrap();
                if table.config_of(other).priority == priority {
                    shared = Some(map.lines[j]);
                    assert(map.spec_line_of(other) == map.lines[j as int]);
                }
            }
            let ghost earlier = map;
            let ghost count = i;
            match shared {
                Some(line) => {
                    map.lines[i] = line;
                },
                None => {
                    map.lines[i] = map.used;
                    map.used = map.used + 1;
                },
            }
            i = i + 1;
            proof {
                assert(map.spec_line_of(task) == map.lines[count as int]);
                assert forall|t: TaskId| t.spec_ordinal() < count implies map.spec_line_of(t)
                    == earlier.spec_line_of(t) by {}
                assert forall|line: usize| line < map.used implies #[trigger] map.is_in_use(
                    line,
                    i,
                ) by {
                    if line < earlier.used {
                        assert(earlier.is_in_use(line, count));
                        let t = choose|t: TaskId|
                            t.spec_ordinal() < count && #[trigger] earlier.spec_line_of(t) == line;
                        assert(map.spec_line_of(t) == line);
                    } else {
                        assert(map.spec_line_of(task) == line);
                    }
                }
                if shared is Some {
                    let t = choose|t: TaskId|
                        t.spec_ordinal() < count && #[trigger] earlier.spec_line_of(t) == shared->0
                            && table.spec_config_of(t).priority == priority;
                    assert(!opens_level(*table, task));
                }
            }
        }
        proof {
            assert forall|t: TaskId| #[trigger] map.spec_line_of(t) < map.spec_used() by {
                assert(t.spec_ordinal() < TASK_COUNT);
            }
            assert forall|t: TaskId, u: TaskId|
                #![trigger map.spec_line_of(t), map.spec_line_of(u)]
                map.spec_line_of(t) == map.spec_line_of(u) <==> table.spec_config_of(t).priority
                    == table.spec_config_of(u).priority by {
                assert(t.spec_ordinal() < TASK_COUNT && u.spec_ordinal() < TASK_COUNT);
            }
            assert forall|t: TaskId, u: TaskId|
                #![trigger map.spec_line_of(t), map.spec_line_of(u)]
                opens_level(*table, t) && opens_level(*table, u) && t.spec_ordinal()
                    < u.spec_ordinal() implies map.spec_line_of(t) < map.spec_line_of(u) by {
                assert(u.spec_ordinal() < TASK_COUNT);
            }
        }
        map
    }

    /// The dispatch line that serves `task`.
    #[verifier::when_used_as_spec(spec_line_of)]
    pub fn line_of(&self, task: TaskId) -> (line: usize)
        ensures
            line == self.spec_line_of(task),
    {
        self.lines[task.ordinal()]
    }

    /// The number of dispatch lines in use.
    #[verifier::when_used_as_spec(spec_used)]
    pub fn used(&self) -> (n: usize)
        ensures
            n == self.spec_used(),
    {
        self.used
    }
}

} // verus!
