//! A one-shot timer counted in nanoseconds, as the game runs the timers of
//! attacks: it counts up to its duration, stays there and reports the tick in
//! which it got there.
use vstd::prelude::*;

verus! {

#[derive(Debug, PartialEq, Eq, Structural, Clone, Copy)]
pub struct OnceTimer {
    pub elapsed_nanos: u64,
    pub duration_nanos: u64,
    pub finished: bool,
}

impl OnceTimer {
    /// The elapsed time never passes the duration.
    pub open spec fn wf(self) -> bool {
        self.elapsed_nanos <= self.duration_nanos
    }

    /// The timer after `delta` more nanoseconds, and whether it finished in
    /// that tick. A finished timer does not move.
    pub open spec fn ticked(self, delta: u64) -> (OnceTimer, bool) {
        if self.finished {
            (self, false)
        } else if delta >= self.duration_nanos - self.elapsed_nanos {
            (OnceTimer { elapsed_nanos: self.duration_nanos, finished: true, ..self }, true)
        } else {
            (OnceTimer { elapsed_nanos: (self.elapsed_nanos + delta) as u64, ..self }, false)
        }
    }

    /// A timer of `duration_nanos` that has not run yet.
    pub fn new(duration_nanos: u64) -> (t: Self)
        ensures
            t == (OnceTimer { elapsed_nanos: 0, duration_nanos, finished: false }),
            t.wf(),
    {
        OnceTimer { elapsed_nanos: 0, duration_nanos, finished: false }
    }

    /// Lets `delta_nanos` pass; returns whether the timer finished in this tick.
    pub fn tick(&mut self, delta_nanos: u64) -> (just_finished: bool)
        requires
            old(self).wf(),
        ensures
            (*final(self), just_finished) == old(self).ticked(delta_nanos),
            final(self).wf(),
    {
        if self.finished {
            return false;
        }
        if delta_nanos >= self.duration_nanos - self.elapsed_nanos {
            self.elapsed_nanos = self.duration_nanos;
            self.finished = true;
            true
        } else {
            self.elapsed_nanos = self.elapsed_nanos + delta_nanos;
            false
        }
    }

    /// Whether the timer got to its duration.
    pub fn is_finished(&self) -> (r: bool)
        ensures
            r == self.finished,
    {
        self.finished
    }
}

/// Ticking by `d1` and then by `d2` leaves the timer where one tick by
/// `d1 + d2` leaves it, and it finishes in one of the two ticks exactly when
/// the single tick finishes it.
pub proof fn lemma_tick_split(t: OnceTimer, d1: u64, d2: u64)
    requires
        t.wf(),
        d1 + d2 <= u64::MAX,
    ensures
        ({
            let (t1, f1) = t.ticked(d1);
            let (t2, f2) = t1.ticked(d2);
            let (t3, f3) = t.ticked((d1 + d2) as u64);
            t2 == t3 && (f1 || f2) == f3
        }),
{
}

} // verus!
