//! Cyclic execution records: time-driven wake-ups of tasklets.
use vstd::prelude::*;
use crate::time::{Duration, Instant};

verus! {

/// The first multiple of `period` after `next` that lies strictly beyond `now`:
/// `next + period * k` for the least `k` with that sum above `now`.
pub open spec fn advanced_deadline(next: int, period: int, now: int) -> int
    recommends
        period > 0,
        next <= now,
{
    next + period * ((now - next) / period + 1)
}

/// The deadline after a tick at `now`, where the sum saturates at the largest instant.
pub open spec fn next_deadline(next: int, period: int, now: int) -> int {
    if advanced_deadline(next, period, now) <= u64::MAX {
        advanced_deadline(next, period, now)
    } else {
        u64::MAX as int
    }
}

/// The advanced deadline lies beyond `now`, and less than one period beyond it.
pub proof fn lemma_advanced_deadline(next: int, period: int, now: int)
    requires
        period > 0,
        next <= now,
    ensures
        now < advanced_deadline(next, period, now) <= now + period,
        advanced_deadline(next, period, now) - period <= now,
        (advanced_deadline(next, period, now) - next) % period == 0,
{
    let gap = now - next;
    let q = gap / period;
    vstd::arithmetic::div_mod::lemma_fundamental_div_mod(gap, period);
    assert(gap == period * q + gap % period);
    assert(0 <= gap % period < period);
    assert(period * (q + 1) == period * q + period) by (nonlinear_arith);
    vstd::arithmetic::div_mod::lemma_mod_multiples_basic(q + 1, period);
    assert((period * (q + 1)) % period == 0) by {
        assert(period * (q + 1) == (q + 1) * period) by (nonlinear_arith);
    }
}

/// Whether a record with this period and deadline wakes its tasklet on a tick at `now`.
pub open spec fn due(period: Option<Duration>, next: Instant, now: Instant) -> bool {
    match period {
        None => true,
        Some(_) => next.ticks <= now.ticks,
    }
}

/// The deadline of a record after a tick at `now`.
pub open spec fn after_tick(period: Option<Duration>, next: Instant, now: Instant) -> Instant {
    match period {
        Some(p) => if next.ticks <= now.ticks {
            Instant { ticks: next_deadline(next.ticks as int, p.ticks as int, now.ticks as int) as u64 }
        } else {
            next
        },
        None => next,
    }
}

/// Missed deadlines coalesce: on a tick at `now` a due periodic record
/// wakes its tasklet once, however many periods have passed since its
/// deadline, and its next deadline lies beyond `now`, so that a second tick
/// at the same instant wakes nothing; the new deadline is less than one
/// period away and stays on the record's grid of periods.
pub proof fn lemma_cyclic_coalescing(period: Duration, next: Instant, now: Instant)
    requires
        period.ticks > 0,
        next.ticks <= now.ticks,
        advanced_deadline(next.ticks as int, period.ticks as int, now.ticks as int) <= u64::MAX,
    ensures
        due(Some(period), next, now),
        now.ticks < after_tick(Some(period), next, now).ticks <= now.ticks + period.ticks,
        (after_tick(Some(period), next, now).ticks - next.ticks) % (period.ticks as int) == 0,
        !due(Some(period), after_tick(Some(period), next, now), now),
        after_tick(Some(period), after_tick(Some(period), next, now), now) == after_tick(
            Some(period),
            next,
            now,
        ),
{
    lemma_advanced_deadline(next.ticks as int, period.ticks as int, now.ticks as int);
}

/// A record that wakes one tasklet on a period, or on every tick.
pub struct CyclicExecution {
    tasklet: usize,
    period: Option<Duration>,
    next_execution_time: Instant,
}

impl CyclicExecution {
    /// Index of the tasklet that the record wakes.
    pub closed spec fn tasklet_view(&self) -> usize {
        self.tasklet
    }

    /// Period, if any.
    pub closed spec fn period_view(&self) -> Option<Duration> {
        self.period
    }

    /// Instant at which the record is next due.
    pub closed spec fn next_view(&self) -> Instant {
        self.next_execution_time
    }

    /// A period, when there is one, is not zero.
    pub closed spec fn wf(&self) -> bool {
        self.period matches Some(p) ==> p.ticks > 0
    }

    /// A record first due at `offset` after start, or at start when there is none.
    pub fn new(tasklet: usize, period: Option<Duration>, offset: Option<Duration>) -> (r:
        CyclicExecution)
        requires
            period matches Some(p) ==> p.ticks > 0,
        ensures
            r.wf(),
            r.tasklet_view() == tasklet,
            r.period_view() == period,
            r.next_view().ticks == match offset {
                Some(o) => o.ticks,
                None => 0,
            },
    {
        let next_execution_time = match offset {
            Some(o) => Instant::from_ticks(o.ticks()),
            None => Instant::from_ticks(0),
        };
        CyclicExecution { tasklet, period, next_execution_time }
    }

    /// Index of the tasklet that the record wakes.
    pub fn tasklet(&self) -> (r: usize)
        ensures
            r == self.tasklet_view(),
    {
        self.tasklet
    }

    /// Instant at which the record is next due.
    pub fn next_execution_time(&self) -> (r: Instant)
        ensures
            r == self.next_view(),
    {
        self.next_execution_time
    }

    /// Decides, on a tick at `now`, whether the tasklet is to be woken, and
    /// moves the deadline past `now` when it is due: missed periods collapse
    /// into this one wake.
    pub fn wake_if_should_execute(&mut self, now: Instant) -> (r: bool)
        requires
            old(self).wf(),
        ensures
            final(self).wf(),
            final(self).tasklet_view() == old(self).tasklet_view(),
            final(self).period_view() == old(self).period_view(),
            r == due(old(self).period_view(), old(self).next_view(), now),
            final(self).next_view() == after_tick(old(self).period_view(), old(self).next_view(), now),
    {
        match self.period {
            None => true,
            Some(p) => {
                let next = self.next_execution_time.ticks();
                if now.ticks() < next {
                    return false;
                }
                let period = p.ticks();
                let gap = now.ticks() - next;
                let q = gap / period;
                proof {
                    lemma_advanced_deadline(next as int, period as int, now.ticks as int);
                }
                let advanced = if q < u64::MAX {
                    match period.checked_mul(q + 1) {
                        Some(step) => next.checked_add(step),
                        None => None,
                    }
                } else {
                    proof {
                        assert(period * (q + 1) > u64::MAX) by (nonlinear_arith)
                            requires
                                period > 0,
                                q == u64::MAX,
                        ;
                    }
                    None
                };
                let ticks = match advanced {
                    Some(t) => t,
                    None => {
                        proof {
                            assert(period * (q + 1) >= 0) by (nonlinear_arith)
                                requires
                                    period > 0,
                                    q >= 0,
                            ;
                        }
                        u64::MAX
                    },
                };
                self.next_execution_time = Instant::from_ticks(ticks);
                true
            },
        }
    }
}

} // verus!
