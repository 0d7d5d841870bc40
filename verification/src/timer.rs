use vstd::prelude::*;

verus! {

/// A frame timer: it accumulates delta time and reports, once per tick,
/// whether the accumulated time crossed the configured period.
///
/// Exactly one completion is reported per tick however many periods the
/// delta spans, and the accumulator resets to zero on rollover.
#[derive(Clone, Copy, Debug, PartialEq, Eq, Structural)]
pub struct Timer {
    /// Time accumulated since the last rollover, in host clock units.
    pub elapsed: u64,
    /// The configured period, in host clock units.
    pub period: u64,
    /// Whether the last call to [`Timer::tick`] crossed the period.
    pub just_finished: bool,
}

/// The timer value that one call of [`Timer::tick`] with delta `dt` turns `t` into.
pub open spec fn timer_after_tick(t: Timer, dt: u64) -> Timer {
    if t.elapsed + dt >= t.period {
        Timer { elapsed: 0, period: t.period, just_finished: true }
    } else {
        Timer { elapsed: (t.elapsed + dt) as u64, period: t.period, just_finished: false }
    }
}

impl Timer {
    /// A fresh timer with the given period and nothing accumulated.
    pub fn new(period: u64) -> (r: Timer)
        ensures
            r == (Timer { elapsed: 0, period, just_finished: false }),
    {
        Timer { elapsed: 0, period, just_finished: false }
    }

    /// Add `dt` to the accumulator; on crossing the period, reset the
    /// accumulator and mark the timer as just finished for this tick.
    pub fn tick(&mut self, dt: u64)
        ensures
            *final(self) == timer_after_tick(*old(self), dt),
    {
        let crossed: bool = dt >= self.period || self.elapsed >= self.period - dt;
        if crossed {
            self.elapsed = 0;
            self.just_finished = true;
        } else {
            self.elapsed = self.elapsed + dt;
            self.just_finished = false;
        }
    }
}

} // verus!
