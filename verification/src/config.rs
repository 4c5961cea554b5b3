//! Configuration values handed to every operation: default durations for
//! each interval kind and the paths of the files the caller keeps.

use vstd::prelude::*;

verus! {

/// Global configuration values.
///
/// The durations are counts of whole seconds; the paths point at the hooks
/// directory, the state file and the history file. Loading and saving a
/// configuration file, and finding the default locations, are left to the
/// caller: the operations here only read the durations.
#[derive(Clone, Debug)]
pub struct Config {
    /// Directory to find hook executables in.
    pub hooks_directory: String,
    /// File describing the current Pomodoro or break timer.
    pub state_file_path: String,
    /// File describing historical Pomodoro timers.
    pub history_file_path: String,
    /// Default duration for Pomodoro timers, in seconds.
    pub pomodoro_duration: i64,
    /// Default duration for short break timers, in seconds.
    pub short_break_duration: i64,
    /// Default duration for long break timers, in seconds.
    pub long_break_duration: i64,
}

impl Config {
    /// All three default durations are non-negative.
    pub open spec fn wf(&self) -> bool {
        &&& 0 <= self.pomodoro_duration
        &&& 0 <= self.short_break_duration
        &&& 0 <= self.long_break_duration
    }
}

/// The stock default duration of a Pomodoro: 25 minutes.
pub fn default_pomodoro_duration() -> (r: i64)
    ensures
        r == 1500,
{
    1500
}

/// The stock default duration of a short break: 5 minutes.
pub fn default_short_break_duration() -> (r: i64)
    ensures
        r == 300,
{
    300
}

/// The stock default duration of a long break: 20 minutes.
pub fn default_long_break_duration() -> (r: i64)
    ensures
        r == 1200,
{
    1200
}

} // verus!
