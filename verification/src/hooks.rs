//! Lifecycle hook events. Each state transition names the hook event it
//! fires; looking up and spawning the hook executable is the caller's job.

use vstd::prelude::*;

verus! {

/// A lifecycle event that a user-supplied executable can be attached to.
#[derive(Clone, Copy, Debug, PartialEq, Eq, Hash, Structural)]
pub enum Hook {
    /// A Pomodoro was started.
    PomodoroStart,
    /// A Pomodoro was finished or stopped.
    PomodoroEnd,
    /// A short break was started.
    ShortBreakStart,
    /// A short break ended.
    ShortBreakEnd,
    /// A long break was started.
    LongBreakStart,
    /// A long break ended.
    LongBreakEnd,
}

impl Hook {
    /// The file name, inside the hooks directory, of the executable that
    /// this event runs.
    pub open spec fn spec_file_name(self) -> Seq<char> {
        match self {
            Hook::PomodoroStart => "pomodoro-start"@,
            Hook::PomodoroEnd => "pomodoro-end"@,
            Hook::ShortBreakStart => "shortbreak-start"@,
            Hook::ShortBreakEnd => "shortbreak-end"@,
            Hook::LongBreakStart => "longbreak-start"@,
            Hook::LongBreakEnd => "longbreak-end"@,
        }
    }

    /// The file name of this event's hook executable.
    pub fn file_name(&self) -> (r: String)
        ensures
            r@ == self.spec_file_name(),
    {
        match self {
            Hook::PomodoroStart => String::from_str("pomodoro-start"),
            Hook::PomodoroEnd => String::from_str("pomodoro-end"),
            Hook::ShortBreakStart => String::from_str("shortbreak-start"),
            Hook::ShortBreakEnd => String::from_str("shortbreak-end"),
            Hook::LongBreakStart => String::from_str("longbreak-start"),
            Hook::LongBreakEnd => String::from_str("longbreak-end"),
        }
    }
}

} // verus!
