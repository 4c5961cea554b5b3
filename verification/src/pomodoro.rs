//! Pomodoro timers: a timer plus an optional description, optional tags and
//! an optional completion instant.

use vstd::prelude::*;

use crate::config::Config;
use crate::hooks::Hook;
use crate::time::{Timer, TimerV};
use crate::{FinishOutcome, Status, StatusV, TransitionError};

verus! {

/// Mathematical model of a [`Pomodoro`].
#[verifier::ext_equal]
pub struct PomodoroV {
    pub timer: TimerV,
    pub description: Option<Seq<char>>,
    pub tags: Option<Seq<Seq<char>>>,
    pub finished_at: Option<int>,
}

impl PomodoroV {
    /// A Pomodoro is well formed when its timer is, and its completion
    /// instant, if recorded, is no earlier than its start and fits in a
    /// signed 64-bit count of seconds, as does the span between the two.
    pub open spec fn wf(self) -> bool {
        &&& self.timer.wf()
        &&& match self.finished_at {
            Some(f) => {
                &&& self.timer.started_at <= f <= i64::MAX
                &&& f - self.timer.started_at <= i64::MAX
            },
            None => true,
        }
    }
}

/// A Pomodoro timer: one focus interval, with optional metadata and an
/// optional completion marker.
#[derive(Clone, Eq, PartialEq, Hash, Debug)]
pub struct Pomodoro {
    timer: Timer,
    description: Option<String>,
    tags: Option<Vec<String>>,
    finished_at: Option<i64>,
}

impl View for Pomodoro {
    type V = PomodoroV;

    closed spec fn view(&self) -> PomodoroV {
        PomodoroV {
            timer: self.timer@,
            description: self.description.deep_view(),
            tags: self.tags.deep_view(),
            finished_at: match self.finished_at {
                Some(f) => Some(f as int),
                None => None,
            },
        }
    }
}

impl DeepView for Pomodoro {
    type V = PomodoroV;

    open spec fn deep_view(&self) -> PomodoroV {
        self.view()
    }
}

impl Pomodoro {
    /// Well-formedness of the concrete Pomodoro, in terms of its model.
    pub open spec fn wf(self) -> bool {
        self@.wf()
    }

    /// Create a new Pomodoro starting at the given instant, with no
    /// description, no tags and no completion instant.
    pub fn new(starts_at: i64, duration: i64) -> (r: Pomodoro)
        requires
            0 <= duration,
            starts_at + duration <= i64::MAX,
        ensures
            r@ == (PomodoroV {
                timer: TimerV { started_at: starts_at as int, duration: duration as int },
                description: None,
                tags: None,
                finished_at: None,
            }),
            r.wf(),
    {
        let timer = Timer::new(starts_at, duration);
        Pomodoro { timer, finished_at: None, description: None, tags: None }
    }

    /// Get the struct describing the time this Pomodoro is running.
    pub fn timer(&self) -> (r: &Timer)
        ensures
            r@ == self@.timer,
    {
        &self.timer
    }

    /// Get the description.
    pub fn description(&self) -> (r: Option<&str>)
        ensures
            match r {
                Some(d) => self@.description == Some(d@),
                None => self@.description is None,
            },
    {
        match &self.description {
            Some(d) => Some(d.as_str()),
            None => None,
        }
    }

    /// Set the description, overwriting any previous value.
    pub fn set_description(&mut self, description: &str)
        ensures
            final(self)@ == (PomodoroV { description: Some(description@), ..old(self)@ }),
    {
        self.description = Some(description.to_owned());
    }

    /// Get the tags.
    pub fn tags(&self) -> (r: Option<&Vec<String>>)
        ensures
            match r {
                Some(ts) => self@.tags == Some(ts.deep_view()),
                None => self@.tags is None,
            },
    {
        match &self.tags {
            Some(ts) => Some(ts),
            None => None,
        }
    }

    /// Set the tags, overwriting any previous value.
    pub fn set_tags(&mut self, tags: Vec<String>)
        ensures
            final(self)@ == (PomodoroV { tags: Some(tags.deep_view()), ..old(self)@ }),
    {
        self.tags = Some(tags);
    }

    /// Record the completion instant of this Pomodoro.
    pub fn finish(&mut self, now: i64)
        requires
            old(self)@.timer.started_at <= now,
            now - old(self)@.timer.started_at <= i64::MAX,
        ensures
            final(self)@ == (PomodoroV { finished_at: Some(now as int), ..old(self)@ }),
            old(self).wf() ==> final(self).wf(),
    {
        self.finished_at = Some(now);
    }

    /// The completion instant, if this Pomodoro was finished.
    pub(crate) fn finished_at(&self) -> (r: Option<i64>)
        ensures
            match r {
                Some(f) => self@.finished_at == Some(f as int),
                None => self@.finished_at is None,
            },
    {
        self.finished_at
    }

    /// Put a Pomodoro together from already-parsed parts.
    pub(crate) fn assemble(
        timer: Timer,
        description: Option<String>,
        tags: Option<Vec<String>>,
        finished_at: Option<i64>,
    ) -> (r: Pomodoro)
        ensures
            r@ == (PomodoroV {
                timer: timer@,
                description: description.deep_view(),
                tags: tags.deep_view(),
                finished_at: match finished_at {
                    Some(f) => Some(f as int),
                    None => None,
                },
            }),
    {
        Pomodoro { timer, description, tags, finished_at }
    }

    /// Get the actual time this Pomodoro ran before it was finished:
    /// the span from its start to its completion instant, or `None` while it
    /// is not finished. For the length it was set for, use the duration of
    /// this Pomodoro's [`timer()`](Self::timer).
    pub fn duration(&self) -> (r: Option<i64>)
        requires
            self.wf(),
        ensures
            match r {
                Some(d) => self@.finished_at == Some(self@.timer.started_at + d),
                None => self@.finished_at is None,
            },
    {
        match self.finished_at {
            Some(f) => Some(f - self.timer.starts_at()),
            None => None,
        }
    }
}

/// Start a new Pomodoro: from [`Status::Inactive`] the transition succeeds
/// and yields the active status to persist plus the hook to fire; from any
/// other status it is rejected and nothing changes.
///
/// The new Pomodoro starts at `now` and runs for `duration` seconds, or for
/// the configured default Pomodoro duration if no duration is given; it
/// carries the given description (if any) and always carries the given tags.
pub fn start(
    config: &Config,
    status: &Status,
    now: i64,
    duration: &Option<i64>,
    description: &Option<String>,
    tags: &Vec<String>,
) -> (r: Result<(Status, Hook), TransitionError>)
    requires
        config.wf(),
        match duration {
            Some(d) => 0 <= *d && now + *d <= i64::MAX,
            None => now + config.pomodoro_duration <= i64::MAX,
        },
    ensures
        match status@ {
            StatusV::Inactive => (r matches Ok(p)
                && p.0@ == (StatusV::Active(PomodoroV {
                    timer: TimerV {
                        started_at: now as int,
                        duration: match duration {
                            Some(d) => *d as int,
                            None => config.pomodoro_duration as int,
                        },
                    },
                    description: description.deep_view(),
                    tags: Some(tags.deep_view()),
                    finished_at: None,
                }))
                && p.0.wf()
                && p.1 == Hook::PomodoroStart),
            StatusV::Active(_) => (r matches Err(e) && e == TransitionError::AlreadyActive),
            StatusV::ShortBreak(_) => (r matches Err(e) && e == TransitionError::OnBreak),
            StatusV::LongBreak(_) => (r matches Err(e) && e == TransitionError::OnBreak),
        },
{
    match status {
        Status::ShortBreak(_) => Err(TransitionError::OnBreak),
        Status::LongBreak(_) => Err(TransitionError::OnBreak),
        Status::Active(_) => Err(TransitionError::AlreadyActive),
        Status::Inactive => {
            let dur = match duration {
                Some(d) => *d,
                None => config.pomodoro_duration,
            };
            let mut pom = Pomodoro::new(now, dur);
            if let Some(desc) = description {
                pom.set_description(desc.as_str());
            }
            pom.set_tags(crate::text::clone_string_vec(tags));
            Ok((Status::Active(pom), Hook::PomodoroStart))
        },
    }
}

/// Stop the current Pomodoro: if one is active, mark it finished at `now`
/// and yield the inactive status to persist, the end hook to fire and the
/// finished Pomodoro to archive; from any other status this is a no-op.
pub fn stop(status: Status, now: i64) -> (r: Option<FinishOutcome>)
    requires
        status.wf(),
        status@ matches StatusV::Active(p) ==> p.timer.started_at <= now && now
            - p.timer.started_at <= i64::MAX,
    ensures
        match status@ {
            StatusV::Active(p) => (r matches Some(o)
                && o.next@ == StatusV::Inactive
                && o.hook == Hook::PomodoroEnd
                && (o.archived matches Some(a) && a@ == (PomodoroV {
                    finished_at: Some(now as int),
                    ..p
                }) && a.wf())),
            _ => r is None,
        },
{
    match status {
        Status::Active(mut pom) => {
            pom.finish(now);
            Some(FinishOutcome {
                next: Status::Inactive,
                hook: Hook::PomodoroEnd,
                archived: Some(pom),
            })
        },
        _ => None,
    }
}

} // verus!
