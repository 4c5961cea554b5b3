//! Transitions for short break timers.

use vstd::prelude::*;

use crate::config::Config;
use crate::hooks::Hook;
use crate::time::{Timer, TimerV};
use crate::{FinishOutcome, Status, StatusV, TransitionError};

verus! {

/// Start a short break: from [`Status::Inactive`] the transition succeeds
/// and yields the short-break status to persist plus the hook to fire; with
/// an unfinished Pomodoro or another break running it is rejected and
/// nothing changes.
///
/// The break starts at `now` and runs for `duration` seconds, or for the
/// configured default short break duration if no duration is given.
pub fn start(config: &Config, status: &Status, now: i64, duration: &Option<i64>) -> (r: Result<
    (Status, Hook),
    TransitionError,
>)
    requires
        config.wf(),
        match duration {
            Some(d) => 0 <= *d && now + *d <= i64::MAX,
            None => now + config.short_break_duration <= i64::MAX,
        },
    ensures
        match status@ {
            StatusV::Inactive => (r matches Ok(p)
                && p.0@ == (StatusV::ShortBreak(TimerV {
                    started_at: now as int,
                    duration: match duration {
                        Some(d) => *d as int,
                        None => config.short_break_duration as int,
                    },
                }))
                && p.0.wf()
                && p.1 == Hook::ShortBreakStart),
            StatusV::Active(_) => (r matches Err(e) && e == TransitionError::ActiveTimer),
            StatusV::ShortBreak(_) => (r matches Err(e) && e == TransitionError::AlreadyOnBreak),
            StatusV::LongBreak(_) => (r matches Err(e) && e == TransitionError::AlreadyOnBreak),
        },
{
    match status {
        Status::Active(_) => Err(TransitionError::ActiveTimer),
        Status::ShortBreak(_) => Err(TransitionError::AlreadyOnBreak),
        Status::LongBreak(_) => Err(TransitionError::AlreadyOnBreak),
        Status::Inactive => {
            let dur = match duration {
                Some(d) => *d,
                None => config.short_break_duration,
            };
            let timer = Timer::new(now, dur);
            Ok((Status::ShortBreak(timer), Hook::ShortBreakStart))
        },
    }
}

/// Stop the current short break: if one is running, yield the inactive
/// status to persist and the end hook to fire, with nothing archived;
/// from any other status this is a no-op.
pub fn stop(status: Status) -> (r: Option<FinishOutcome>)
    ensures
        match status@ {
            StatusV::ShortBreak(_) => (r matches Some(o)
                && o.next@ == StatusV::Inactive
                && o.hook == Hook::ShortBreakEnd
                && o.archived is None),
            _ => r is None,
        },
{
    match status {
        Status::ShortBreak(_) => Some(FinishOutcome {
            next: Status::Inactive,
            hook: Hook::ShortBreakEnd,
            archived: None,
        }),
        _ => None,
    }
}

} // verus!
