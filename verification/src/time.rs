use vstd::prelude::*;
use crate::fault::Fault;

verus! {

/// Number of values the tick counter takes before it wraps to zero.
pub open spec fn ring_size() -> int {
    0x1_0000_0000
}

/// Half the ring. Two instants can be ordered when they are less than this
/// many ticks apart.
pub const HALF_RING: u32 = 0x8000_0000;

/// A length of time, counted in ticks.
#[derive(Clone, Copy, Debug, PartialEq, Eq, Structural)]
pub struct Duration {
    pub ticks: u32,
}

/// A point in time: a value of the wrapping tick counter.
#[derive(Clone, Copy, Debug, PartialEq, Eq, Structural)]
pub struct Instant {
    pub ticks: u32,
}

impl Duration {
    pub fn from_ticks(ticks: u32) -> (d: Duration)
        ensures
            d.ticks == ticks,
    {
        Duration { ticks }
    }

    pub fn as_ticks(self) -> (n: u32)
        ensures
            n == self.ticks,
    {
        self.ticks
    }
}

impl Instant {
    /// The instant at which the counter shows `ticks`.
    pub fn from_ticks(ticks: u32) -> (t: Instant)
        ensures
            t.ticks == ticks,
    {
        Instant { ticks }
    }

    pub fn as_ticks(self) -> (n: u32)
        ensures
            n == self.ticks,
    {
        self.ticks
    }

    /// The instant the counter shows after `elapsed` ticks of real time,
    /// counted from the moment it showed zero.
    pub open spec fn at(elapsed: int) -> Instant {
        Instant { ticks: (elapsed % ring_size()) as u32 }
    }

    /// Ticks the counter takes to go forward from `self` to `later`, in
    /// `0 .. ring_size()`.
    pub open spec fn ticks_until(self, later: Instant) -> int {
        if later.ticks >= self.ticks {
            later.ticks - self.ticks
        } else {
            later.ticks - self.ticks + ring_size()
        }
    }

    /// Position of `self` relative to `origin`, in `-HALF_RING .. HALF_RING`:
    /// positive when `self` is ahead of `origin` by less than half the ring,
    /// negative when it is behind.
    pub open spec fn offset_from(self, origin: Instant) -> int {
        let gap = origin.ticks_until(self);
        if gap < HALF_RING {
            gap
        } else {
            gap - ring_size()
        }
    }

    /// `offset_from` as a machine integer.
    pub fn signed_offset_from(self, origin: Instant) -> (offset: i64)
        ensures
            offset == self.offset_from(origin),
    {
        let gap: u32 = self.ticks.wrapping_sub(origin.ticks);
        if gap < HALF_RING {
            gap as i64
        } else {
            gap as i64 - 0x1_0000_0000
        }
    }

    pub open spec fn spec_plus(self, d: Duration) -> Instant {
        let sum = self.ticks + d.ticks;
        Instant { ticks: (if sum < ring_size() { sum } else { sum - ring_size() }) as u32 }
    }

    /// `self` moved forward by `d`, wrapping at the end of the ring.
    #[verifier::when_used_as_spec(spec_plus)]
    pub fn plus(self, d: Duration) -> (t: Instant)
        ensures
            t == self.spec_plus(d),
            self.ticks_until(t) == d.ticks,
    {
        Instant { ticks: self.ticks.wrapping_add(d.ticks) }
    }

    /// The time from `earlier` to `self`, going forward on the ring. It is the
    /// real elapsed time whenever that is less than one full turn.
    pub fn since(self, earlier: Instant) -> (d: Duration)
        ensures
            d.ticks == earlier.ticks_until(self),
    {
        Duration { ticks: self.ticks.wrapping_sub(earlier.ticks) }
    }

    pub open spec fn spec_is_before(self, other: Instant) -> bool {
        0 < self.ticks_until(other) < HALF_RING
    }

    /// Whether `other` comes strictly after `self`, by less than half the ring.
    #[verifier::when_used_as_spec(spec_is_before)]
    pub fn is_before(self, other: Instant) -> (b: bool)
        ensures
            b == self.spec_is_before(other),
    {
        let gap: u32 = other.ticks.wrapping_sub(self.ticks);
        gap != 0 && gap < HALF_RING
    }

    pub open spec fn spec_is_at_or_before(self, other: Instant) -> bool {
        self.ticks_until(other) < HALF_RING
    }

    /// Whether `other` is `self` or comes after it by less than half the ring.
    #[verifier::when_used_as_spec(spec_is_at_or_before)]
    pub fn is_at_or_before(self, other: Instant) -> (b: bool)
        ensures
            b == self.spec_is_at_or_before(other),
            b == (self == other || self.spec_is_before(other)),
    {
        other.ticks.wrapping_sub(self.ticks) < HALF_RING
    }
}

impl Instant {
    /// `self` moved forward by `d`, `k` times in a row.
    pub open spec fn plus_repeated(self, d: Duration, k: nat) -> Instant
        decreases k,
    {
        if k == 0 {
            self
        } else {
            self.plus_repeated(d, (k - 1) as nat).spec_plus(d)
        }
    }
}

/// The tick after any instant comes after it, also where the counter wraps
/// from its last value to zero.
pub proof fn lemma_next_tick_is_after(a: Instant)
    ensures
        a.spec_is_before(a.spec_plus(Duration { ticks: 1 })),
{
}

/// Moving an instant forward by less than half the ring, and by at least one
/// tick, yields an instant that comes after it.
pub proof fn lemma_plus_is_after(a: Instant, d: Duration)
    requires
        0 < d.ticks < HALF_RING,
    ensures
        a.spec_is_before(a.spec_plus(d)),
        a.ticks_until(a.spec_plus(d)) == d.ticks,
{
}

/// Of two instants one at most comes before the other, and none comes before
/// itself.
pub proof fn lemma_is_before_is_asymmetric(a: Instant, b: Instant)
    ensures
        !(a.spec_is_before(b) && b.spec_is_before(a)),
        !a.spec_is_before(a),
{
}

/// Where the real times `t` and `u`, counted in ticks since the counter
/// showed zero, are less than half the ring apart, the instants the counter
/// shows at them are ordered as `t` and `u` are, however often the counter has
/// wrapped; and the ticks from the earlier to the later are the real distance.
pub proof fn lemma_order_follows_real_time(t: int, u: int)
    requires
        -(HALF_RING as int) < u - t < HALF_RING as int,
    ensures
        Instant::at(t).spec_is_before(Instant::at(u)) <==> t < u,
        Instant::at(t).spec_is_at_or_before(Instant::at(u)) <==> t <= u,
        t <= u ==> Instant::at(t).ticks_until(Instant::at(u)) == u - t,
{
    let ring = ring_size();
    let a = t % ring;
    let b = u % ring;
    assert(t == ring * (t / ring) + a && 0 <= a < ring);
    assert(u == ring * (u / ring) + b && 0 <= b < ring);
    assert(Instant::at(t).ticks == a);
    assert(Instant::at(u).ticks == b);
}

/// Moving the instant shown at real time `t` forward by `d` gives the instant
/// shown at real time `t + d`.
pub proof fn lemma_plus_follows_real_time(t: int, d: Duration)
    ensures
        Instant::at(t).spec_plus(d) == Instant::at(t + d.ticks),
{
    let ring = ring_size();
    let a = t % ring;
    let b = (t + d.ticks) % ring;
    assert(t == ring * (t / ring) + a && 0 <= a < ring);
    assert(t + d.ticks == ring * ((t + d.ticks) / ring) + b && 0 <= b < ring);
    assert(Instant::at(t).ticks == a);
    assert(Instant::at(t + d.ticks).ticks == b);
}

/// A wake instant that is moved forward by the same period `k` times in a row
/// stands exactly `k` periods after the first one: no error builds up.
pub proof fn lemma_repeated_plus_has_no_drift(first: Instant, period: Duration, k: nat)
    ensures
        first.plus_repeated(period, k) == Instant::at(first.ticks + k * period.ticks),
    decreases k,
{
    if k == 0 {
        assert(first.ticks + 0 * period.ticks == first.ticks);
        assert(first.ticks as int % ring_size() == first.ticks);
    } else {
        let before = (k - 1) as nat;
        lemma_repeated_plus_has_no_drift(first, period, before);
        lemma_plus_follows_real_time(first.ticks + before * period.ticks, period);
        assert(before * period.ticks + period.ticks == k * period.ticks) by (nonlinear_arith)
            requires
                before == k - 1,
        ;
    }
}

/// Seen from an origin that lies at or before both of them, two instants are
/// ordered as their offsets are.
pub proof fn lemma_offsets_order_instants(origin: Instant, a: Instant, b: Instant)
    requires
        origin.spec_is_at_or_before(a),
        origin.spec_is_at_or_before(b),
    ensures
        a.offset_from(origin) < b.offset_from(origin) <==> a.spec_is_before(b),
        a.offset_from(origin) == b.offset_from(origin) <==> a == b,
{
}

/// The logical clock over the hardware tick counter.
///
/// The counter itself is read by the caller, who passes the raw count in. The
/// clock refuses to interpret a count until it has been enabled.
#[derive(Clone, Copy, Debug, PartialEq, Eq, Structural)]
pub struct MonotonicClock {
    pub enabled: bool,
}

impl MonotonicClock {
    /// A clock that has not been enabled yet.
    pub fn new() -> (clock: MonotonicClock)
        ensures
            !clock.enabled,
    {
        MonotonicClock { enabled: false }
    }

    /// Marks the counter as running. Enabling twice is the same as once.
    pub fn enable(&mut self)
        ensures
            final(self).enabled,
    {
        self.enabled = true;
    }

    pub fn is_enabled(&self) -> (b: bool)
        ensures
            b == self.enabled,
    {
        self.enabled
    }

    /// The current instant, given the count just read from the counter.
    pub fn now(&self, count: u32) -> (r: Result<Instant, Fault>)
        ensures
            self.enabled ==> r == Ok::<Instant, Fault>(Instant { ticks: count }),
            !self.enabled ==> r == Err::<Instant, Fault>(Fault::ClockDisabled),
    {
        if self.enabled {
            Ok(Instant { ticks: count })
        } else {
            Err(Fault::ClockDisabled)
        }
    }

    /// The time that has passed since `start`, given the count just read from
    /// the counter.
    pub fn elapsed(&self, start: Instant, count: u32) -> (r: Result<Duration, Fault>)
        ensures
            self.enabled ==> r == Ok::<Duration, Fault>(
                Duration { ticks: start.ticks_until(Instant { ticks: count }) as u32 },
            ),
            !self.enabled ==> r == Err::<Duration, Fault>(Fault::ClockDisabled),
    {
        match self.now(count) {
            Ok(now) => Ok(now.since(start)),
            Err(fault) => Err(fault),
        }
    }
}

} // verus!
