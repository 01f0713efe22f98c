//! A countdown timer advanced by frame time, with edge-triggered completion.
use vstd::prelude::*;

verus! {

/// Largest frame step, in milliseconds, that one `tick` accepts.
pub const MAX_TICK_MS: u64 = 1_000_000_000;

/// Largest duration, in milliseconds, that a timer can have.
pub const MAX_DURATION_MS: u64 = 1_000_000_000_000;

/// A timer of `duration` milliseconds. A repeating timer starts over each
/// time it completes; a one-shot timer stays finished until reset.
#[derive(Clone, Copy, Debug, PartialEq, Eq, Structural)]
pub struct Timer {
    pub duration: u64,
    pub elapsed: u64,
    pub repeating: bool,
    pub finished: bool,
    /// How many times the timer completed during the last tick.
    pub times_finished: u32,
}

impl Timer {
    pub open spec fn wf(self) -> bool {
        &&& 0 < self.duration <= MAX_DURATION_MS
        &&& self.elapsed <= self.duration
        &&& self.repeating ==> self.elapsed < self.duration
    }

    /// The timer after `delta` milliseconds have passed.
    pub open spec fn ticked(self, delta: u64) -> Timer {
        if !self.repeating && self.finished {
            Timer { times_finished: 0, ..self }
        } else {
            let e = self.elapsed + delta;
            if e >= self.duration {
                if self.repeating {
                    Timer {
                        elapsed: (e % (self.duration as int)) as u64,
                        finished: true,
                        times_finished: ((e as int) / (self.duration as int)) as u32,
                        ..self
                    }
                } else {
                    Timer { elapsed: self.duration, finished: true, times_finished: 1, ..self }
                }
            } else {
                Timer { elapsed: e as u64, finished: false, times_finished: 0, ..self }
            }
        }
    }

    pub open spec fn reset_spec(self) -> Timer {
        Timer { elapsed: 0, finished: false, times_finished: 0, ..self }
    }

    pub open spec fn from_millis_spec(duration: u64, repeating: bool) -> Timer {
        Timer { duration, elapsed: 0, repeating, finished: false, times_finished: 0 }
    }

    /// A fresh timer of `duration` milliseconds.
    pub fn from_millis(duration: u64, repeating: bool) -> (r: Timer)
        requires
            0 < duration <= MAX_DURATION_MS,
        ensures
            r.wf(),
            r == Timer::from_millis_spec(duration, repeating),
    {
        Timer { duration, elapsed: 0, repeating, finished: false, times_finished: 0 }
    }

    /// Advances the timer by `delta` milliseconds.
    pub fn tick(&mut self, delta: u64)
        requires
            old(self).wf(),
            delta <= MAX_TICK_MS,
        ensures
            *final(self) == old(self).ticked(delta),
            final(self).wf(),
    {
        if !self.repeating && self.finished {
            self.times_finished = 0;
            return;
        }
        let e = self.elapsed + delta;
        if e >= self.duration {
            if self.repeating {
                proof {
                    assert((e as int) / (self.duration as int) <= e) by (nonlinear_arith)
                        requires self.duration >= 1, e >= 0;
                    assert(e <= MAX_DURATION_MS + MAX_TICK_MS);
                    assert((e as int) / (self.duration as int) <= 1 + MAX_TICK_MS) by (nonlinear_arith)
                        requires
                            self.duration >= 1,
                            e <= self.duration + MAX_TICK_MS,
                            e >= 0;
                }
                self.times_finished = (e / self.duration) as u32;
                self.elapsed = e % self.duration;
            } else {
                self.times_finished = 1;
                self.elapsed = self.duration;
            }
            self.finished = true;
        } else {
            self.elapsed = e;
            self.finished = false;
            self.times_finished = 0;
        }
    }

    /// Whether the timer completed during the last tick.
    pub fn just_finished(&self) -> (r: bool)
        ensures
            r == (self.times_finished > 0),
    {
        self.times_finished > 0
    }

    pub fn finished(&self) -> (r: bool)
        ensures
            r == self.finished,
    {
        self.finished
    }

    /// Starts the timer over.
    pub fn reset(&mut self)
        requires
            old(self).wf(),
        ensures
            *final(self) == old(self).reset_spec(),
            final(self).wf(),
    {
        self.elapsed = 0;
        self.finished = false;
        self.times_finished = 0;
    }

    /// Milliseconds left before the timer completes, never below zero.
    pub fn remaining(&self) -> (r: u64)
        ensures
            r == (if self.elapsed <= self.duration { self.duration - self.elapsed } else { 0 }),
    {
        self.duration.saturating_sub(self.elapsed)
    }
}

} // verus!
