use vstd::prelude::*;
use crate::led::{set_leds, LedBank};
use crate::task::TaskId;
use crate::time::{Duration, Instant};

verus! {

/// Body of the task that turns the lines on. It drives every line high and
/// returns the instant at which the task is to run next, which is one period
/// after the instant it was scheduled for, whenever it actually runs.
pub fn blink_led(leds: &mut LedBank, scheduled: Instant, period: Duration) -> (next: Instant)
    ensures
        next == scheduled.spec_plus(period),
        final(leds)@ == LedBank::uniform(true),
{
    let next = scheduled.plus(period);
    set_leds(leds, true);
    next
}

/// Body of the task that turns the lines off. It drives every line low and
/// returns the instant at which the task is to run next, which is one period
/// after the instant it was scheduled for, whenever it actually runs.
pub fn turn_off_led(leds: &mut LedBank, scheduled: Instant, period: Duration) -> (next: Instant)
    ensures
        next == scheduled.spec_plus(period),
        final(leds)@ == LedBank::uniform(false),
{
    let next = scheduled.plus(period);
    set_leds(leds, false);
    next
}

/// Runs the body of `task`.
pub fn run_body(task: TaskId, leds: &mut LedBank, scheduled: Instant, period: Duration) -> (next:
    Instant)
    ensures
        next == scheduled.spec_plus(period),
        final(leds)@ == LedBank::uniform(task.spec_level()),
{
    match task {
        TaskId::TurnOn => blink_led(leds, scheduled, period),
        TaskId::TurnOff => turn_off_led(leds, scheduled, period),
    }
}

} // verus!
