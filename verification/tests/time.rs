use tick_scheduler::fault::Fault;
use tick_scheduler::time::{Duration, Instant, MonotonicClock, HALF_RING};

#[test]
fn next_tick_is_after_at_the_wrap_boundary() {
    let last = Instant::from_ticks(u32::MAX);
    let next = last.plus(Duration::from_ticks(1));
    assert_eq!(next, Instant::from_ticks(0));
    assert!(last.is_before(next));
    assert!(!next.is_before(last));
}

#[test]
fn next_tick_is_after_everywhere() {
    for ticks in [0u32, 1, 99, HALF_RING - 1, HALF_RING, HALF_RING + 1, u32::MAX - 1, u32::MAX] {
        let a = Instant::from_ticks(ticks);
        assert!(a.is_before(a.plus(Duration::from_ticks(1))));
    }
}

#[test]
fn no_instant_is_before_itself() {
    let a = Instant::from_ticks(12345);
    assert!(!a.is_before(a));
    assert!(a.is_at_or_before(a));
}

#[test]
fn order_reaches_just_short_of_half_the_ring() {
    let a = Instant::from_ticks(10);
    assert!(a.is_before(Instant::from_ticks(10 + (HALF_RING - 1))));
    assert!(!a.is_before(Instant::from_ticks(10 + HALF_RING)));
    assert!(!a.is_at_or_before(Instant::from_ticks(10 + HALF_RING)));
    assert!(Instant::from_ticks(10 + HALF_RING + 1).is_before(a));
}

#[test]
fn order_matches_elapsed_ticks_across_a_wrap() {
    let before_wrap = Instant::from_ticks(0xFFFF_FF00);
    let after_wrap = Instant::from_ticks(0x0000_0100);
    assert!(before_wrap.is_before(after_wrap));
    assert!(!after_wrap.is_before(before_wrap));
    assert_eq!(after_wrap.since(before_wrap), Duration::from_ticks(0x200));
}

#[test]
fn plus_wraps_at_the_end_of_the_ring() {
    let a = Instant::from_ticks(0xFFFF_FF00);
    assert_eq!(a.plus(Duration::from_ticks(0x200)), Instant::from_ticks(0x100));
    assert_eq!(a.plus(Duration::from_ticks(0)), a);
    assert_eq!(Instant::from_ticks(7).plus(Duration::from_ticks(5)).as_ticks(), 12);
}

#[test]
fn since_counts_forward() {
    let a = Instant::from_ticks(100);
    let b = Instant::from_ticks(350);
    assert_eq!(b.since(a).as_ticks(), 250);
    assert_eq!(a.since(b).as_ticks(), u32::MAX - 249);
    assert_eq!(a.since(a).as_ticks(), 0);
}

#[test]
fn signed_offset_is_negative_behind_the_origin() {
    let origin = Instant::from_ticks(5);
    assert_eq!(Instant::from_ticks(5).signed_offset_from(origin), 0);
    assert_eq!(Instant::from_ticks(105).signed_offset_from(origin), 100);
    assert_eq!(Instant::from_ticks(u32::MAX).signed_offset_from(origin), -6);
    assert_eq!(
        Instant::from_ticks(5 + HALF_RING).signed_offset_from(origin),
        -(HALF_RING as i64)
    );
    assert_eq!(
        Instant::from_ticks(5 + HALF_RING - 1).signed_offset_from(origin),
        HALF_RING as i64 - 1
    );
}

#[test]
fn clock_refuses_to_be_read_before_it_is_enabled() {
    let clock = MonotonicClock::new();
    assert!(!clock.is_enabled());
    assert_eq!(clock.now(42), Err(Fault::ClockDisabled));
    assert_eq!(clock.elapsed(Instant::from_ticks(0), 42), Err(Fault::ClockDisabled));
}

#[test]
fn clock_reads_the_count_once_enabled() {
    let mut clock = MonotonicClock::new();
    clock.enable();
    clock.enable();
    assert!(clock.is_enabled());
    assert_eq!(clock.now(42), Ok(Instant::from_ticks(42)));
}

#[test]
fn elapsed_is_right_across_one_wrap() {
    let mut clock = MonotonicClock::new();
    clock.enable();
    let start = Instant::from_ticks(u32::MAX - 9);
    assert_eq!(clock.elapsed(start, 20), Ok(Duration::from_ticks(30)));
    assert_eq!(clock.elapsed(start, u32::MAX - 9), Ok(Duration::from_ticks(0)));
}
