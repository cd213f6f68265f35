//! Timers that are driven by the frame loop.
//!
//! A timer accumulates the time that each frame hands it and expires
//! whenever the sum reaches its duration. No clock is read: a timer that is
//! not ticked stands still, so a paused game pauses its timers.
use vstd::prelude::*;

verus! {

/// A repeating timer. Times are whole nanoseconds.
#[derive(Copy, Clone, Debug, PartialEq, Eq, Hash, Structural)]
pub struct FrameTimer {
    duration: u64,
    elapsed: u64,
    finished: bool,
}

impl FrameTimer {
    /// The time from one expiry to the next.
    pub closed spec fn duration(self) -> nat {
        self.duration as nat
    }

    /// The time accumulated since the last expiry.
    pub closed spec fn elapsed(self) -> nat {
        self.elapsed as nat
    }

    /// Whether the timer expired on its last tick.
    pub closed spec fn finished(self) -> bool {
        self.finished
    }

    /// The duration is not zero, and less than one duration has accumulated.
    pub open spec fn wf(self) -> bool {
        self.duration() > 0 && self.elapsed() < self.duration()
    }

    /// Whether a tick of `delta` makes the timer expire.
    pub open spec fn fires(self, delta: u64) -> bool {
        self.elapsed() + delta >= self.duration()
    }

    /// The timer after a tick of `delta`: whole durations are taken off the
    /// accumulated time.
    pub closed spec fn ticked(self, delta: u64) -> FrameTimer {
        FrameTimer {
            duration: self.duration,
            elapsed: ((self.elapsed + delta) % (self.duration as int)) as u64,
            finished: self.elapsed + delta >= self.duration,
        }
    }

    /// The timer set back to its start.
    pub closed spec fn rewound(self) -> FrameTimer {
        FrameTimer { duration: self.duration, elapsed: 0, finished: false }
    }

    /// What a tick does, in terms of the timer's readings.
    pub proof fn lemma_ticked(self, delta: u64)
        requires
            self.wf(),
        ensures
            self.ticked(delta).wf(),
            self.ticked(delta).duration() == self.duration(),
            self.ticked(delta).elapsed() == (self.elapsed() + delta) % (self.duration() as int),
            self.ticked(delta).finished() == self.fires(delta),
    {
    }

    /// What a reset does, in terms of the timer's readings.
    pub proof fn lemma_rewound(self)
        requires
            self.wf(),
        ensures
            self.rewound().wf(),
            self.rewound().duration() == self.duration(),
            self.rewound().elapsed() == 0,
            !self.rewound().finished(),
    {
    }

    /// How the time is cut into frames does not matter to what is left on
    /// the timer: two ticks leave what one tick of their sum leaves.
    pub proof fn lemma_ticks_add_up(self, first: u64, second: u64)
        requires
            self.wf(),
            first + second <= u64::MAX,
        ensures
            self.ticked(first).ticked(second).elapsed() == self.ticked(
                (first + second) as u64,
            ).elapsed(),
    {
        let d = self.duration as int;
        let e = self.elapsed as int;
        vstd::arithmetic::div_mod::lemma_add_mod_noop_right(second as int, e + first, d);
        assert(((e + first) % d + second) % d == (e + first + second) % d) by {
            assert((second + (e + first) % d) % d == (second + (e + first)) % d);
        }
    }

    /// A timer of the given duration that has accumulated nothing, or
    /// nothing where the duration is zero: such a timer could never tick.
    pub fn new(duration_nanos: u64) -> (timer: Option<FrameTimer>)
        ensures
            timer is Some <==> duration_nanos > 0,
            timer is Some ==> timer->0.wf() && timer->0.duration() == duration_nanos
                && timer->0.elapsed() == 0 && !timer->0.finished(),
    {
        if duration_nanos == 0 {
            None
        } else {
            Some(FrameTimer { duration: duration_nanos, elapsed: 0, finished: false })
        }
    }

    /// A timer of the given duration, which is not zero.
    pub(crate) fn with_duration(duration_nanos: u64) -> (timer: FrameTimer)
        requires
            duration_nanos > 0,
        ensures
            timer.wf(),
            timer.duration() == duration_nanos,
            timer.elapsed() == 0,
            !timer.finished(),
    {
        FrameTimer { duration: duration_nanos, elapsed: 0, finished: false }
    }

    /// The time from one expiry to the next, in nanoseconds.
    pub fn duration_nanos(&self) -> (nanos: u64)
        ensures
            nanos == self.duration(),
    {
        self.duration
    }

    /// The time accumulated since the last expiry, in nanoseconds.
    pub fn elapsed_nanos(&self) -> (nanos: u64)
        ensures
            nanos == self.elapsed(),
    {
        self.elapsed
    }

    /// Whether the timer expired on its last tick.
    pub fn just_finished(&self) -> (expired: bool)
        ensures
            expired == self.finished(),
    {
        self.finished
    }

    /// Advances the timer by the time of one frame, and says whether it
    /// expired on this tick.
    pub fn tick(&mut self, delta_nanos: u64) -> (expired: bool)
        requires
            old(self).wf(),
        ensures
            *final(self) == old(self).ticked(delta_nanos),
            final(self).wf(),
            final(self).duration() == old(self).duration(),
            final(self).elapsed() == (old(self).elapsed() + delta_nanos) % (old(self).duration()
                as int),
            expired == old(self).fires(delta_nanos),
            expired == final(self).finished(),
    {
        let total: u128 = self.elapsed as u128 + delta_nanos as u128;
        let expired = total >= self.duration as u128;
        self.elapsed = (total % (self.duration as u128)) as u64;
        self.finished = expired;
        expired
    }

    /// Sets the timer back to its start.
    pub fn reset(&mut self)
        requires
            old(self).wf(),
        ensures
            *final(self) == old(self).rewound(),
            final(self).wf(),
            final(self).duration() == old(self).duration(),
            final(self).elapsed() == 0,
            !final(self).finished(),
    {
        self.elapsed = 0;
        self.finished = false;
    }
}

} // verus!
