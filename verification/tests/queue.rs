use tick_scheduler::due::DueList;
use tick_scheduler::fault::Fault;
use tick_scheduler::queue::TaskQueue;
use tick_scheduler::task::{Entry, TaskId, TaskTable};
use tick_scheduler::time::{Duration, Instant, HALF_RING};

fn queue(on_priority: u8, off_priority: u8, start: u32) -> TaskQueue {
    let table = TaskTable::blinker(
        Duration::from_ticks(1000),
        Duration::from_ticks(100),
        on_priority,
        off_priority,
    );
    TaskQueue::new(&table, Instant::from_ticks(start))
}

fn at(ticks: u32) -> Instant {
    Instant::from_ticks(ticks)
}

fn entry(task: TaskId, wake: u32, priority: u8) -> Entry {
    Entry { task, wake: at(wake), priority }
}

fn listed(due: &DueList) -> Vec<Entry> {
    let mut entries = Vec::new();
    let mut i = 0;
    while let Some(e) = due.get(i) {
        entries.push(e);
        i += 1;
    }
    assert_eq!(entries.len(), due.len());
    assert_eq!(entries.is_empty(), due.is_empty());
    entries
}

#[test]
fn new_queue_is_empty() {
    let q = queue(2, 1, 40);
    assert_eq!(q.peek_earliest(), None);
    assert_eq!(q.wake_of(TaskId::TurnOn), None);
    assert_eq!(q.wake_of(TaskId::TurnOff), None);
    assert_eq!(q.priority_of(TaskId::TurnOn), 2);
    assert_eq!(q.priority_of(TaskId::TurnOff), 1);
    assert_eq!(q.reference(), at(40));
    assert!(!q.has_started());
}

#[test]
fn schedule_replaces_the_pending_entry_of_the_task() {
    let mut q = queue(1, 1, 0);
    assert_eq!(q.schedule(TaskId::TurnOn, at(50)), Ok(()));
    assert_eq!(q.schedule(TaskId::TurnOn, at(70)), Ok(()));
    assert_eq!(q.wake_of(TaskId::TurnOn), Some(at(70)));
    assert_eq!(q.wake_of(TaskId::TurnOff), None);
    let due = q.pop_due(at(100));
    assert_eq!(listed(&due), vec![entry(TaskId::TurnOn, 70, 1)]);
    assert_eq!(listed(&q.pop_due(at(100))), vec![]);
}

#[test]
fn schedule_now_fails_with_a_conflict() {
    let mut q = queue(1, 1, 0);
    let now = at(500);
    assert!(q.pop_due(now).is_empty());
    assert_eq!(q.schedule(TaskId::TurnOn, now), Err(Fault::SchedulingConflict));
    assert_eq!(q.wake_of(TaskId::TurnOn), None);
    assert_eq!(q.peek_earliest(), None);
    assert_eq!(q.schedule(TaskId::TurnOn, at(501)), Ok(()));
    assert_eq!(q.wake_of(TaskId::TurnOn), Some(at(501)));
}

#[test]
fn schedule_in_the_past_fails_with_a_conflict() {
    let mut q = queue(1, 1, 1000);
    assert_eq!(q.schedule(TaskId::TurnOff, at(999)), Err(Fault::SchedulingConflict));
    assert_eq!(q.schedule(TaskId::TurnOff, at(0)), Err(Fault::SchedulingConflict));
    assert_eq!(q.wake_of(TaskId::TurnOff), None);
}

#[test]
fn schedule_at_the_start_fails_with_a_conflict() {
    let mut q = queue(1, 1, 500);
    assert_eq!(q.schedule(TaskId::TurnOn, at(500)), Err(Fault::SchedulingConflict));
    assert_eq!(q.wake_of(TaskId::TurnOn), None);
    assert_eq!(q.peek_earliest(), None);
    assert!(!q.has_started());
    assert_eq!(listed(&q.pop_due(at(500))), vec![]);
    assert_eq!(q.wake_of(TaskId::TurnOn), None);
    assert_eq!(q.schedule(TaskId::TurnOn, at(500)), Err(Fault::SchedulingConflict));
    assert_eq!(q.schedule(TaskId::TurnOn, at(501)), Ok(()));
}

#[test]
fn seeded_queue_holds_every_task_at_its_phase() {
    let table =
        TaskTable::blinker(Duration::from_ticks(1000), Duration::from_ticks(100), 2, 1);
    let mut q = TaskQueue::seeded(&table, at(500)).unwrap();
    assert_eq!(q.wake_of(TaskId::TurnOn), Some(at(500)));
    assert_eq!(q.wake_of(TaskId::TurnOff), Some(at(600)));
    assert_eq!(q.priority_of(TaskId::TurnOn), 2);
    assert_eq!(q.priority_of(TaskId::TurnOff), 1);
    assert_eq!(q.reference(), at(500));
    assert!(!q.has_started());
    assert_eq!(q.peek_earliest(), Some(entry(TaskId::TurnOn, 500, 2)));
    assert_eq!(q.schedule(TaskId::TurnOff, at(500)), Err(Fault::SchedulingConflict));
    assert_eq!(q.wake_of(TaskId::TurnOff), Some(at(600)));
    assert_eq!(listed(&q.pop_due(at(500))), vec![entry(TaskId::TurnOn, 500, 2)]);
}

#[test]
fn seeded_queue_wraps_its_phases() {
    let table =
        TaskTable::blinker(Duration::from_ticks(1000), Duration::from_ticks(100), 1, 1);
    let q = TaskQueue::seeded(&table, at(0xFFFF_FFF0)).unwrap();
    assert_eq!(q.wake_of(TaskId::TurnOn), Some(at(0xFFFF_FFF0)));
    assert_eq!(q.wake_of(TaskId::TurnOff), Some(at(0x54)));
    assert_eq!(q.peek_earliest(), Some(entry(TaskId::TurnOn, 0xFFFF_FFF0, 1)));
}

#[test]
fn seeding_beyond_the_horizon_fails_with_a_conflict() {
    let period = Duration::from_ticks(1000);
    let far = TaskTable::blinker(period, Duration::from_ticks(HALF_RING), 1, 1);
    assert_eq!(TaskQueue::seeded(&far, at(7)).err(), Some(Fault::SchedulingConflict));
    let farthest = TaskTable::blinker(period, Duration::from_ticks(u32::MAX), 1, 1);
    assert_eq!(TaskQueue::seeded(&farthest, at(7)).err(), Some(Fault::SchedulingConflict));
    let near = TaskTable::blinker(period, Duration::from_ticks(HALF_RING - 1), 1, 1);
    let q = TaskQueue::seeded(&near, at(7)).unwrap();
    assert_eq!(q.wake_of(TaskId::TurnOff), Some(at(7 + (HALF_RING - 1))));
}

#[test]
fn schedule_beyond_the_horizon_fails_with_a_conflict() {
    let mut q = queue(1, 1, 10);
    assert_eq!(q.schedule(TaskId::TurnOn, at(10 + HALF_RING)), Err(Fault::SchedulingConflict));
    assert_eq!(q.wake_of(TaskId::TurnOn), None);
    assert_eq!(q.schedule(TaskId::TurnOn, at(10 + HALF_RING - 1)), Ok(()));
    assert_eq!(q.wake_of(TaskId::TurnOn), Some(at(10 + HALF_RING - 1)));
}

#[test]
fn rejected_schedule_leaves_the_queue_as_it_was() {
    let mut q = queue(2, 1, 100);
    assert_eq!(q.schedule(TaskId::TurnOn, at(300)), Ok(()));
    assert_eq!(q.schedule(TaskId::TurnOn, at(50)), Err(Fault::SchedulingConflict));
    assert_eq!(q.wake_of(TaskId::TurnOn), Some(at(300)));
    assert_eq!(q.reference(), at(100));
    assert!(!q.has_started());
}

#[test]
fn peek_earliest_returns_the_smallest_wake_instant() {
    let mut q = queue(2, 1, 0);
    q.schedule(TaskId::TurnOn, at(300)).unwrap();
    q.schedule(TaskId::TurnOff, at(200)).unwrap();
    assert_eq!(q.peek_earliest(), Some(entry(TaskId::TurnOff, 200, 1)));
    assert_eq!(q.peek_earliest(), Some(entry(TaskId::TurnOff, 200, 1)));
    assert_eq!(q.wake_of(TaskId::TurnOff), Some(at(200)));
}

#[test]
fn peek_earliest_breaks_a_tie_by_priority() {
    let mut q = queue(1, 2, 0);
    q.schedule(TaskId::TurnOn, at(200)).unwrap();
    q.schedule(TaskId::TurnOff, at(200)).unwrap();
    assert_eq!(q.peek_earliest(), Some(entry(TaskId::TurnOff, 200, 2)));
}

#[test]
fn peek_earliest_breaks_equal_priority_by_ordinal() {
    let mut q = queue(3, 3, 0);
    q.schedule(TaskId::TurnOff, at(200)).unwrap();
    q.schedule(TaskId::TurnOn, at(200)).unwrap();
    assert_eq!(q.peek_earliest(), Some(entry(TaskId::TurnOn, 200, 3)));
}

#[test]
fn peek_earliest_orders_across_the_wrap() {
    let mut q = queue(1, 1, 0xFFFF_FFF0);
    q.schedule(TaskId::TurnOn, at(0x10)).unwrap();
    q.schedule(TaskId::TurnOff, at(0xFFFF_FFF8)).unwrap();
    assert_eq!(q.peek_earliest(), Some(entry(TaskId::TurnOff, 0xFFFF_FFF8, 1)));
}

#[test]
fn peek_earliest_puts_an_overdue_entry_first() {
    let mut q = queue(1, 1, 0);
    q.schedule(TaskId::TurnOn, at(100)).unwrap();
    assert!(q.pop_due(at(50)).is_empty());
    q.schedule(TaskId::TurnOff, at(60)).unwrap();
    assert!(q.pop_due(at(55)).is_empty());
    assert_eq!(q.peek_earliest(), Some(entry(TaskId::TurnOff, 60, 1)));
}

#[test]
fn pop_due_returns_entries_in_priority_order() {
    let mut q = queue(1, 2, 0);
    q.schedule(TaskId::TurnOn, at(100)).unwrap();
    q.schedule(TaskId::TurnOff, at(100)).unwrap();
    let due = q.pop_due(at(100));
    assert_eq!(
        listed(&due),
        vec![entry(TaskId::TurnOff, 100, 2), entry(TaskId::TurnOn, 100, 1)]
    );
}

#[test]
fn pop_due_orders_by_priority_whatever_the_wake_instants() {
    let mut q = queue(1, 2, 0);
    q.schedule(TaskId::TurnOn, at(10)).unwrap();
    q.schedule(TaskId::TurnOff, at(90)).unwrap();
    let due = q.pop_due(at(100));
    assert_eq!(
        listed(&due),
        vec![entry(TaskId::TurnOff, 90, 2), entry(TaskId::TurnOn, 10, 1)]
    );
}

#[test]
fn pop_due_breaks_equal_priority_by_ordinal() {
    let mut q = queue(5, 5, 0);
    q.schedule(TaskId::TurnOff, at(100)).unwrap();
    q.schedule(TaskId::TurnOn, at(100)).unwrap();
    let due = q.pop_due(at(100));
    assert_eq!(
        listed(&due),
        vec![entry(TaskId::TurnOn, 100, 5), entry(TaskId::TurnOff, 100, 5)]
    );
}

#[test]
fn pop_due_leaves_what_is_not_due() {
    let mut q = queue(1, 1, 0);
    q.schedule(TaskId::TurnOn, at(100)).unwrap();
    q.schedule(TaskId::TurnOff, at(200)).unwrap();
    let due = q.pop_due(at(150));
    assert_eq!(listed(&due), vec![entry(TaskId::TurnOn, 100, 1)]);
    assert_eq!(q.wake_of(TaskId::TurnOn), None);
    assert_eq!(q.wake_of(TaskId::TurnOff), Some(at(200)));
    assert_eq!(q.peek_earliest(), Some(entry(TaskId::TurnOff, 200, 1)));
}

#[test]
fn pop_due_takes_an_entry_that_is_due_exactly_now() {
    let mut q = queue(1, 1, 0);
    q.schedule(TaskId::TurnOff, at(200)).unwrap();
    assert!(q.pop_due(at(199)).is_empty());
    assert_eq!(listed(&q.pop_due(at(200))), vec![entry(TaskId::TurnOff, 200, 1)]);
}

#[test]
fn pop_due_makes_now_the_reference() {
    let mut q = queue(1, 1, 0);
    let due = q.pop_due(at(777));
    assert_eq!(due.len(), 0);
    assert_eq!(due.get(0), None);
    assert_eq!(q.reference(), at(777));
    assert!(q.has_started());
}

#[test]
fn pop_due_sees_an_entry_from_before_the_wrap() {
    let mut q = queue(1, 1, 0xFFFF_FFF0);
    q.schedule(TaskId::TurnOn, at(0xFFFF_FFF8)).unwrap();
    q.schedule(TaskId::TurnOff, at(0x20)).unwrap();
    let due = q.pop_due(at(0x5));
    assert_eq!(listed(&due), vec![entry(TaskId::TurnOn, 0xFFFF_FFF8, 1)]);
    assert_eq!(q.wake_of(TaskId::TurnOff), Some(at(0x20)));
}

#[test]
fn due_list_keeps_the_order_of_insertion_positions() {
    let mut list = DueList::new();
    assert!(list.is_empty());
    list.insert(0, entry(TaskId::TurnOff, 5, 1));
    list.insert(0, entry(TaskId::TurnOn, 9, 2));
    assert_eq!(list.len(), 2);
    assert_eq!(list.get(0), Some(entry(TaskId::TurnOn, 9, 2)));
    assert_eq!(list.get(1), Some(entry(TaskId::TurnOff, 5, 1)));
    assert_eq!(list.get(2), None);
}
