use vstd::prelude::*;

verus! {

/// The unrecoverable conditions the scheduler can detect.
///
/// Each one is a programming defect. The scheduler only reports it; halting
/// the system is left to the caller.
#[derive(Clone, Copy, Debug, PartialEq, Eq, Structural)]
pub enum Fault {
    /// A wake instant was requested that is not strictly in the future of the
    /// queue's reference instant, or lies beyond the half-ring horizon.
    SchedulingConflict,
    /// The clock was read before it was enabled.
    ClockDisabled,
}

} // verus!
