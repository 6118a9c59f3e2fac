//! Running statistics of a tasklet's step durations.
use vstd::prelude::*;
use crate::time::Duration;

verus! {

/// Shortest, longest and mean step duration, over the steps recorded so far.
#[derive(Clone, Copy, Debug, PartialEq, Eq, Structural)]
pub struct ExecutionStats {
    /// Shortest step, in microseconds.
    pub min: u64,
    /// Longest step, in microseconds.
    pub max: u64,
    /// Mean step, in microseconds, rounded down.
    pub mean: u64,
}

/// `after` is `before` with a step of `elapsed` microseconds recorded.
pub open spec fn recorded(before: ExecutionData, after: ExecutionData, elapsed: u64) -> bool {
    &&& before.count_view() == u64::MAX ==> after == before
    &&& before.count_view() < u64::MAX ==> {
        &&& after.count_view() == before.count_view() + 1
        &&& after.total_view() == before.total_view() + elapsed
        &&& after.min_view() == if before.count_view() == 0 || elapsed < before.min_view() {
            elapsed
        } else {
            before.min_view()
        }
        &&& after.max_view() == if before.count_view() == 0 || elapsed > before.max_view() {
            elapsed
        } else {
            before.max_view()
        }
    }
}

/// The durations recorded for one tasklet: how many, their sum, the
/// shortest and the longest.
pub struct ExecutionData {
    count: u64,
    total: u128,
    min: u64,
    max: u64,
}

impl ExecutionData {
    /// Number of steps recorded.
    pub closed spec fn count_view(&self) -> nat {
        self.count as nat
    }

    /// Sum of the recorded durations.
    pub closed spec fn total_view(&self) -> nat {
        self.total as nat
    }

    /// Shortest recorded duration, or zero when none was recorded.
    pub closed spec fn min_view(&self) -> u64 {
        self.min
    }

    /// Longest recorded duration, or zero when none was recorded.
    pub closed spec fn max_view(&self) -> u64 {
        self.max
    }

    /// The sum of `count` durations of at most `u64::MAX` each.
    pub closed spec fn wf(&self) -> bool {
        self.total <= self.count as int * u64::MAX as int && (self.count == 0 ==> self.min == 0
            && self.max == 0) && self.min <= self.max
    }

    /// Nothing recorded.
    pub fn new() -> (r: ExecutionData)
        ensures
            r.wf(),
            r.count_view() == 0,
            r.total_view() == 0,
            r.min_view() == 0,
            r.max_view() == 0,
    {
        ExecutionData { count: 0, total: 0, min: 0, max: 0 }
    }

    /// Records the duration of one more step; a count at its largest value
    /// stops growing and the record is then dropped.
    pub fn record(&mut self, elapsed: Duration)
        requires
            old(self).wf(),
        ensures
            final(self).wf(),
            recorded(*old(self), *final(self), elapsed.ticks),
    {
        if self.count == u64::MAX {
            return;
        }
        let t = elapsed.ticks();
        if self.count == 0 {
            self.min = t;
            self.max = t;
        } else {
            if t < self.min {
                self.min = t;
            }
            if t > self.max {
                self.max = t;
            }
        }
        proof {
            assert((self.count as int + 1) * u64::MAX as int == self.count as int * u64::MAX as int
                + u64::MAX as int) by (nonlinear_arith);
            assert(self.count as int * u64::MAX as int <= (u64::MAX as int - 1) * u64::MAX as int) by (nonlinear_arith)
                requires
                    self.count < u64::MAX,
            ;
            assert((u64::MAX as int - 1) * u64::MAX as int + u64::MAX as int <= u128::MAX) by (nonlinear_arith);
        }
        self.total = self.total + t as u128;
        self.count = self.count + 1;
    }

    /// The statistics of the recorded steps; all zero when none was recorded.
    pub fn stats(&self) -> (r: ExecutionStats)
        requires
            self.wf(),
        ensures
            r.min == self.min_view(),
            r.max == self.max_view(),
            self.count_view() == 0 ==> r.mean == 0,
            self.count_view() > 0 ==> r.mean == self.total_view() / self.count_view(),
    {
        if self.count == 0 {
            return ExecutionStats { min: 0, max: 0, mean: 0 };
        }
        let mean = self.total / (self.count as u128);
        proof {
            vstd::arithmetic::div_mod::lemma_div_is_ordered(
                self.total as int,
                self.count as int * u64::MAX as int,
                self.count as int,
            );
            assert((self.count as int * u64::MAX as int) / (self.count as int) == u64::MAX as int) by {
                vstd::arithmetic::div_mod::lemma_div_by_multiple(u64::MAX as int, self.count as int);
                assert(self.count as int * u64::MAX as int == u64::MAX as int * self.count as int) by (nonlinear_arith);
            }
        }
        ExecutionStats { min: self.min, max: self.max, mean: mean as u64 }
    }
}

} // verus!
