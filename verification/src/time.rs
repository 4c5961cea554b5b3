//! Kitchen-style timers: a start instant plus a duration, with
//! elapsed/remaining arithmetic against a supplied "now".

use vstd::prelude::*;

verus! {

/// Mathematical model of a [`Timer`]: a start instant and a length,
/// both in whole seconds.
#[verifier::ext_equal]
pub struct TimerV {
    pub started_at: int,
    pub duration: int,
}

impl TimerV {
    /// A timer is well formed when its duration is non-negative, both fields
    /// fit in a signed 64-bit count of seconds, and its end instant does too.
    pub open spec fn wf(self) -> bool {
        &&& i64::MIN <= self.started_at
        &&& 0 <= self.duration <= i64::MAX
        &&& self.started_at + self.duration <= i64::MAX
    }

    /// The instant this timer ends at.
    pub open spec fn ends_at(self) -> int {
        self.started_at + self.duration
    }

    /// Seconds passed since the start, clamped to `[0, duration]`.
    pub open spec fn elapsed(self, now: int) -> int {
        if now <= self.started_at {
            0
        } else if now >= self.ends_at() {
            self.duration
        } else {
            now - self.started_at
        }
    }

    /// Seconds left before the end, clamped to `[0, duration]`.
    pub open spec fn remaining(self, now: int) -> int {
        self.duration - self.elapsed(now)
    }

    /// Whether the timer has run out: strictly after the end instant.
    pub open spec fn done(self, now: int) -> bool {
        now > self.ends_at()
    }
}

/// Like a kitchen timer: starts at a fixed instant and runs for a fixed
/// number of seconds.
#[derive(Clone, Eq, PartialEq, Hash, Debug)]
pub struct Timer {
    started_at: i64,
    duration: i64,
}

impl View for Timer {
    type V = TimerV;

    closed spec fn view(&self) -> TimerV {
        TimerV { started_at: self.started_at as int, duration: self.duration as int }
    }
}

impl Timer {
    /// Well-formedness of the concrete timer, in terms of its model.
    pub open spec fn wf(self) -> bool {
        self@.wf()
    }

    /// Create a new timer.
    pub fn new(started_at: i64, duration: i64) -> (r: Timer)
        requires
            0 <= duration,
            started_at + duration <= i64::MAX,
        ensures
            r@ == (TimerV { started_at: started_at as int, duration: duration as int }),
            r.wf(),
    {
        Timer { started_at, duration }
    }

    /// Get the instant this timer starts at.
    pub fn starts_at(&self) -> (r: i64)
        ensures
            r == self@.started_at,
    {
        self.started_at
    }

    /// Get the instant this timer ends at.
    pub fn ends_at(&self) -> (r: i64)
        requires
            self.wf(),
        ensures
            r == self@.ends_at(),
    {
        self.started_at + self.duration
    }

    /// Get the length of time that this timer was set for.
    pub fn duration(&self) -> (r: i64)
        ensures
            r == self@.duration,
    {
        self.duration
    }

    /// Get the amount of time that has passed since this timer started,
    /// clamped between zero and the timer's duration.
    pub fn elapsed(&self, now: i64) -> (r: i64)
        requires
            self.wf(),
        ensures
            r == self@.elapsed(now as int),
            now <= self@.started_at ==> r == 0,
            now >= self@.started_at + self@.duration ==> r == self@.duration,
    {
        if now <= self.started_at {
            0
        } else if now >= self.ends_at() {
            self.duration
        } else {
            now - self.started_at
        }
    }

    /// Get the amount of time remaining before this timer expires,
    /// clamped between zero and the timer's duration.
    pub fn remaining(&self, now: i64) -> (r: i64)
        requires
            self.wf(),
        ensures
            r == self@.remaining(now as int),
            now >= self@.started_at + self@.duration ==> r == 0,
    {
        self.duration - self.elapsed(now)
    }

    /// Check if this timer's duration has run out: true strictly after the
    /// end instant, false at the end instant itself.
    pub fn done(&self, now: i64) -> (r: bool)
        requires
            self.wf(),
        ensures
            r == self@.done(now as int),
    {
        now > self.ends_at()
    }
}

/// Elapsed and remaining time always partition the duration exactly:
/// for every well-formed timer and every instant,
/// `elapsed(now) + remaining(now) == duration`.
pub proof fn lemma_elapsed_remaining_total(t: TimerV, now: int)
    requires
        t.wf(),
    ensures
        t.elapsed(now) + t.remaining(now) == t.duration,
        0 <= t.elapsed(now) <= t.duration,
        0 <= t.remaining(now) <= t.duration,
{
}

/// The done boundary is strict: a timer is not done at its own end instant,
/// and is done one second later.
pub proof fn lemma_done_boundary(t: TimerV)
    requires
        t.wf(),
    ensures
        !t.done(t.ends_at()),
        t.done(t.ends_at() + 1),
{
}

} // verus!
