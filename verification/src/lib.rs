//! A Pomodoro timer library.
//!
//! Tracks one active focus interval or break at a time, renders and parses
//! the on-disk state and history files, and enforces the transition rules
//! between the inactive, active, short-break and long-break states.
//!
//! All instants are absolute Unix timestamps in whole seconds; all durations
//! are non-negative second counts. Reading the clock, touching the file
//! system and spawning hook processes are left to the caller: every
//! operation here is a pure function of its arguments.

use vstd::prelude::*;

pub mod codec;
pub mod config;
pub mod duration;
pub mod format;
pub mod history;
pub mod hooks;
pub mod long_break;
pub mod pomodoro;
pub mod short_break;
pub mod text;
pub mod time;

pub use config::Config;
pub use history::History;
pub use hooks::Hook;
pub use pomodoro::{Pomodoro, PomodoroV};
pub use time::{Timer, TimerV};

verus! {

/// Mathematical model of a [`Status`].
#[verifier::ext_equal]
pub enum StatusV {
    /// No Pomodoro or break is active.
    Inactive,
    /// A Pomodoro is active.
    Active(PomodoroV),
    /// A timer for a short break is active.
    ShortBreak(TimerV),
    /// A timer for a long break is active.
    LongBreak(TimerV),
}

impl StatusV {
    /// A status is well formed when whatever timer it holds is.
    pub open spec fn wf(self) -> bool {
        match self {
            StatusV::Inactive => true,
            StatusV::Active(p) => p.wf(),
            StatusV::ShortBreak(t) => t.wf(),
            StatusV::LongBreak(t) => t.wf(),
        }
    }
}

/// Phases of the Pomodoro technique: the single current activity slot.
/// At most one Pomodoro or break runs at a time.
#[derive(Clone, Eq, PartialEq, Hash, Debug)]
pub enum Status {
    /// No Pomodoro or break is active.
    Inactive,
    /// A Pomodoro is active.
    Active(Pomodoro),
    /// A timer for a short break is active.
    ShortBreak(Timer),
    /// A timer for a long break is active.
    LongBreak(Timer),
}

impl View for Status {
    type V = StatusV;

    open spec fn view(&self) -> StatusV {
        match self {
            Status::Inactive => StatusV::Inactive,
            Status::Active(p) => StatusV::Active(p@),
            Status::ShortBreak(t) => StatusV::ShortBreak(t@),
            Status::LongBreak(t) => StatusV::LongBreak(t@),
        }
    }
}

impl Status {
    /// Well-formedness of the concrete status, in terms of its model.
    pub open spec fn wf(self) -> bool {
        self@.wf()
    }
}

/// Why a transition was rejected.
#[derive(Clone, Copy, Debug, PartialEq, Eq, Structural)]
pub enum TransitionError {
    /// `finish` was asked for while nothing was running.
    NoActivePomodoro,
    /// A Pomodoro was to start while one is already unfinished.
    AlreadyActive,
    /// A Pomodoro was to start during a break.
    OnBreak,
    /// A break was to start while a Pomodoro is unfinished.
    ActiveTimer,
    /// A break was to start during another break.
    AlreadyOnBreak,
}

impl TransitionError {
    /// The user-facing description of this rejection.
    pub open spec fn spec_message(self) -> Seq<char> {
        match self {
            TransitionError::NoActivePomodoro => "No active Pomodoro. Start one with \"tomate start\""@,
            TransitionError::AlreadyActive => "There is already an unfinished Pomodoro"@,
            TransitionError::OnBreak => "You're currently taking a break!"@,
            TransitionError::ActiveTimer => "Finish your current timer before taking a break"@,
            TransitionError::AlreadyOnBreak => "You are already taking a break"@,
        }
    }

    /// The user-facing description of this rejection.
    pub fn message(&self) -> (r: String)
        ensures
            r@ == self.spec_message(),
    {
        match self {
            TransitionError::NoActivePomodoro => String::from_str(
                "No active Pomodoro. Start one with \"tomate start\"",
            ),
            TransitionError::AlreadyActive => String::from_str(
                "There is already an unfinished Pomodoro",
            ),
            TransitionError::OnBreak => String::from_str("You're currently taking a break!"),
            TransitionError::ActiveTimer => String::from_str(
                "Finish your current timer before taking a break",
            ),
            TransitionError::AlreadyOnBreak => String::from_str("You are already taking a break"),
        }
    }
}

/// What a successful `finish`-type transition asks the caller to do:
/// persist `next` (always inactive), fire `hook`, and append `archived`
/// to the history if a finished Pomodoro is handed back. Breaks are never
/// archived.
#[derive(Clone, Debug, PartialEq, Eq)]
pub struct FinishOutcome {
    /// The status to persist: always inactive.
    pub next: Status,
    /// The hook event to fire.
    pub hook: Hook,
    /// The finished Pomodoro to archive, if a Pomodoro was finished.
    pub archived: Option<Pomodoro>,
}

/// Finish the current Pomodoro or break timer.
///
/// An active Pomodoro is marked finished at `now` and handed back for
/// archival; a break just ends, with nothing archived. With nothing running
/// the transition is rejected. In every successful case the next status is
/// inactive and the matching end hook is named.
pub fn finish(status: Status, now: i64) -> (r: Result<FinishOutcome, TransitionError>)
    requires
        status.wf(),
        status@ matches StatusV::Active(p) ==> p.timer.started_at <= now && now
            - p.timer.started_at <= i64::MAX,
    ensures
        match status@ {
            StatusV::Inactive => (r matches Err(e) && e == TransitionError::NoActivePomodoro),
            StatusV::Active(p) => (r matches Ok(o)
                && o.next@ == StatusV::Inactive
                && o.hook == Hook::PomodoroEnd
                && (o.archived matches Some(a) && a@ == (PomodoroV {
                    finished_at: Some(now as int),
                    ..p
                }) && a.wf())),
            StatusV::ShortBreak(_) => (r matches Ok(o)
                && o.next@ == StatusV::Inactive
                && o.hook == Hook::ShortBreakEnd
                && o.archived is None),
            StatusV::LongBreak(_) => (r matches Ok(o)
                && o.next@ == StatusV::Inactive
                && o.hook == Hook::LongBreakEnd
                && o.archived is None),
        },
{
    match status {
        Status::Inactive => Err(TransitionError::NoActivePomodoro),
        Status::ShortBreak(_) => Ok(FinishOutcome {
            next: Status::Inactive,
            hook: Hook::ShortBreakEnd,
            archived: None,
        }),
        Status::LongBreak(_) => Ok(FinishOutcome {
            next: Status::Inactive,
            hook: Hook::LongBreakEnd,
            archived: None,
        }),
        Status::Active(mut pom) => {
            pom.finish(now);
            Ok(FinishOutcome {
                next: Status::Inactive,
                hook: Hook::PomodoroEnd,
                archived: Some(pom),
            })
        },
    }
}

/// Check the current timer against the clock: if it has run past its end,
/// finish it, as [`finish`] does; otherwise (including when nothing is
/// running) do nothing.
pub fn check(status: Status, now: i64) -> (r: Option<FinishOutcome>)
    requires
        status.wf(),
        status@ matches StatusV::Active(p) ==> p.timer.started_at <= now && now
            - p.timer.started_at <= i64::MAX,
    ensures
        match status@ {
            StatusV::Inactive => r is None,
            StatusV::Active(p) => if p.timer.done(now as int) {
                (r matches Some(o)
                    && o.next@ == StatusV::Inactive
                    && o.hook == Hook::PomodoroEnd
                    && (o.archived matches Some(a) && a@ == (PomodoroV {
                        finished_at: Some(now as int),
                        ..p
                    }) && a.wf()))
            } else {
                r is None
            },
            StatusV::ShortBreak(t) => if t.done(now as int) {
                (r matches Some(o)
                    && o.next@ == StatusV::Inactive
                    && o.hook == Hook::ShortBreakEnd
                    && o.archived is None)
            } else {
                r is None
            },
            StatusV::LongBreak(t) => if t.done(now as int) {
                (r matches Some(o)
                    && o.next@ == StatusV::Inactive
                    && o.hook == Hook::LongBreakEnd
                    && o.archived is None)
            } else {
                r is None
            },
        },
{
    let expired = match &status {
        Status::Inactive => false,
        Status::Active(pom) => pom.timer().done(now),
        Status::ShortBreak(timer) => timer.done(now),
        Status::LongBreak(timer) => timer.done(now),
    };
    if expired {
        match finish(status, now) {
            Ok(o) => Some(o),
            Err(_) => None,
        }
    } else {
        None
    }
}

} // verus!
