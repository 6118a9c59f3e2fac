//! Monotonic time in microseconds.
use vstd::prelude::*;

verus! {

/// Number of microseconds in one millisecond.
pub const MICROS_PER_MILLI: u64 = 1000;

/// A point in time, in microseconds since the system started.
#[derive(Clone, Copy, Debug, PartialEq, Eq, Structural)]
pub struct Instant {
    pub ticks: u64,
}

/// A span of time, in microseconds.
#[derive(Clone, Copy, Debug, PartialEq, Eq, Structural)]
pub struct Duration {
    pub ticks: u64,
}

impl Instant {
    /// The instant `ticks` microseconds after start.
    pub fn from_ticks(ticks: u64) -> (r: Instant)
        ensures
            r.ticks == ticks,
    {
        Instant { ticks }
    }

    /// Microseconds since start.
    pub fn ticks(&self) -> (r: u64)
        ensures
            r == self.ticks,
    {
        self.ticks
    }

    /// This instant moved forward by `d`, saturating at the largest instant.
    pub fn saturating_add(self, d: Duration) -> (r: Instant)
        ensures
            r.ticks == if self.ticks + d.ticks <= u64::MAX {
                (self.ticks + d.ticks) as u64
            } else {
                u64::MAX
            },
    {
        Instant { ticks: self.ticks.saturating_add(d.ticks) }
    }

    /// Time elapsed from `earlier` to this instant, or zero if `earlier` is later.
    pub fn saturating_duration_since(self, earlier: Instant) -> (r: Duration)
        ensures
            r.ticks == if self.ticks >= earlier.ticks {
                (self.ticks - earlier.ticks) as u64
            } else {
                0
            },
    {
        Duration { ticks: self.ticks.saturating_sub(earlier.ticks) }
    }
}

impl Duration {
    /// A duration of `ticks` microseconds.
    pub fn from_ticks(ticks: u64) -> (r: Duration)
        ensures
            r.ticks == ticks,
    {
        Duration { ticks }
    }

    /// A duration of `millis` milliseconds.
    pub fn from_millis(millis: u32) -> (r: Duration)
        ensures
            r.ticks == millis as int * MICROS_PER_MILLI as int,
    {
        Duration { ticks: millis as u64 * MICROS_PER_MILLI }
    }

    /// Length in microseconds.
    pub fn ticks(&self) -> (r: u64)
        ensures
            r == self.ticks,
    {
        self.ticks
    }
}

} // verus!
