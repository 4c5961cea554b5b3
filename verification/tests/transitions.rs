//! The status state machine, hooks, defaults, and duration-string parsing.

use tomate::config::{
    default_long_break_duration, default_pomodoro_duration, default_short_break_duration,
};
use tomate::duration::{duration_from_human, from_iso8601};
use tomate::{check, finish, long_break, pomodoro, short_break, Config, Hook, Pomodoro, Status, Timer};

fn test_config() -> Config {
    Config {
        hooks_directory: "/tmp/hooks".to_string(),
        state_file_path: "/tmp/current.toml".to_string(),
        history_file_path: "/tmp/history.toml".to_string(),
        pomodoro_duration: default_pomodoro_duration(),
        short_break_duration: default_short_break_duration(),
        long_break_duration: default_long_break_duration(),
    }
}

#[test]
fn start_from_inactive_yields_active() {
    let config = test_config();
    let (next, hook) = pomodoro::start(
        &config,
        &Status::Inactive,
        1000,
        &Some(1500),
        &Some("focus".to_string()),
        &vec!["work".to_string()],
    )
    .unwrap();
    assert_eq!(hook, Hook::PomodoroStart);
    match next {
        Status::Active(pom) => {
            assert_eq!(pom.timer().starts_at(), 1000);
            assert_eq!(pom.timer().duration(), 1500);
            assert_eq!(pom.description(), Some("focus"));
            assert_eq!(pom.tags(), Some(&vec!["work".to_string()]));
        }
        _ => panic!("expected an active status"),
    }
}

#[test]
fn start_uses_configured_default_duration() {
    let config = test_config();
    let (next, _) = pomodoro::start(&config, &Status::Inactive, 1000, &None, &None, &Vec::new())
        .unwrap();
    match next {
        Status::Active(pom) => assert_eq!(pom.timer().duration(), 1500),
        _ => panic!("expected an active status"),
    }
}

#[test]
fn second_start_is_rejected_and_state_unchanged() {
    let config = test_config();
    let status = Status::Active(Pomodoro::new(1000, 1500));
    let err = pomodoro::start(&config, &status, 2000, &None, &None, &Vec::new()).unwrap_err();
    assert_eq!(err.message(), "There is already an unfinished Pomodoro");
    // the rejected transition hands nothing back to persist: the status the
    // caller holds is untouched
    assert_eq!(status, Status::Active(Pomodoro::new(1000, 1500)));
}

#[test]
fn start_during_break_is_rejected() {
    let config = test_config();
    let status = Status::ShortBreak(Timer::new(1000, 300));
    let err = pomodoro::start(&config, &status, 2000, &None, &None, &Vec::new()).unwrap_err();
    assert_eq!(err.message(), "You're currently taking a break!");
}

#[test]
fn finish_on_inactive_is_rejected() {
    let err = finish(Status::Inactive, 1000).unwrap_err();
    assert_eq!(err.message(), "No active Pomodoro. Start one with \"tomate start\"");
}

#[test]
fn finish_archives_the_active_pomodoro() {
    let mut pom = Pomodoro::new(1000, 1500);
    pom.set_description("focus");
    let outcome = finish(Status::Active(pom), 2200).unwrap();
    assert_eq!(outcome.next, Status::Inactive);
    assert_eq!(outcome.hook, Hook::PomodoroEnd);
    let archived = outcome.archived.unwrap();
    assert_eq!(archived.duration(), Some(1200));
    assert_eq!(archived.description(), Some("focus"));
}

#[test]
fn finish_on_short_break_archives_nothing() {
    let outcome = finish(Status::ShortBreak(Timer::new(1000, 300)), 2000).unwrap();
    assert_eq!(outcome.next, Status::Inactive);
    assert_eq!(outcome.hook, Hook::ShortBreakEnd);
    assert!(outcome.archived.is_none());
}

#[test]
fn break_start_needs_inactive() {
    let config = test_config();
    let active = Status::Active(Pomodoro::new(1000, 1500));
    let err = short_break::start(&config, &active, 2000, &None).unwrap_err();
    assert_eq!(err.message(), "Finish your current timer before taking a break");

    let on_break = Status::LongBreak(Timer::new(1000, 1200));
    let err = long_break::start(&config, &on_break, 2000, &None).unwrap_err();
    assert_eq!(err.message(), "You are already taking a break");
}

#[test]
fn break_start_and_stop_cycle() {
    let config = test_config();
    let (next, hook) = short_break::start(&config, &Status::Inactive, 1000, &None).unwrap();
    assert_eq!(hook, Hook::ShortBreakStart);
    assert_eq!(next, Status::ShortBreak(Timer::new(1000, 300)));

    let outcome = short_break::stop(next).unwrap();
    assert_eq!(outcome.next, Status::Inactive);
    assert_eq!(outcome.hook, Hook::ShortBreakEnd);
    assert!(outcome.archived.is_none());

    // stopping a break that is not running is a no-op
    assert!(short_break::stop(Status::Inactive).is_none());
    assert!(long_break::stop(Status::ShortBreak(Timer::new(1000, 300))).is_none());

    let (next, hook) = long_break::start(&config, &Status::Inactive, 1000, &Some(600)).unwrap();
    assert_eq!(hook, Hook::LongBreakStart);
    assert_eq!(next, Status::LongBreak(Timer::new(1000, 600)));
    let outcome = long_break::stop(next).unwrap();
    assert_eq!(outcome.hook, Hook::LongBreakEnd);
}

#[test]
fn pomodoro_stop_is_noop_when_not_active() {
    assert!(pomodoro::stop(Status::Inactive, 1000).is_none());
    assert!(pomodoro::stop(Status::ShortBreak(Timer::new(0, 300)), 1000).is_none());
}

#[test]
fn check_finishes_only_expired_timers() {
    let active = Status::Active(Pomodoro::new(1000, 1500));
    // not yet expired: the end instant itself is not past the end
    assert!(check(active.clone(), 2500).is_none());
    let outcome = check(active, 2501).unwrap();
    assert_eq!(outcome.next, Status::Inactive);
    assert!(outcome.archived.is_some());

    let expired_break = Status::ShortBreak(Timer::new(0, 300));
    let outcome = check(expired_break, 301).unwrap();
    assert_eq!(outcome.hook, Hook::ShortBreakEnd);
    assert!(outcome.archived.is_none());

    assert!(check(Status::Inactive, 12345).is_none());
}

#[test]
fn scenario_quarter_before_the_end() {
    let config = test_config();
    let t0 = 1711562400;
    let (status, _) = pomodoro::start(&config, &Status::Inactive, t0, &Some(1500), &None, &Vec::new())
        .unwrap();
    match &status {
        Status::Active(pom) => {
            let now = t0 + 1200;
            assert_eq!(pom.timer().remaining(now), 300);
            assert_eq!(tomate::duration::to_kitchen(pom.timer().remaining(now)), "05:00");
            assert_eq!(tomate::duration::to_human(pom.timer().duration()), "25m");
        }
        _ => panic!("expected an active status"),
    }
}

#[test]
fn hook_file_names() {
    assert_eq!(Hook::PomodoroStart.file_name(), "pomodoro-start");
    assert_eq!(Hook::PomodoroEnd.file_name(), "pomodoro-end");
    assert_eq!(Hook::ShortBreakStart.file_name(), "shortbreak-start");
    assert_eq!(Hook::ShortBreakEnd.file_name(), "shortbreak-end");
    assert_eq!(Hook::LongBreakStart.file_name(), "longbreak-start");
    assert_eq!(Hook::LongBreakEnd.file_name(), "longbreak-end");
}

#[test]
fn stock_default_durations() {
    assert_eq!(default_pomodoro_duration(), 25 * 60);
    assert_eq!(default_short_break_duration(), 5 * 60);
    assert_eq!(default_long_break_duration(), 20 * 60);
}

#[test]
fn human_duration_grammar() {
    assert_eq!(duration_from_human("22m30s").unwrap(), 22 * 60 + 30);
    assert_eq!(duration_from_human("2m30s").unwrap(), 150);
    assert_eq!(duration_from_human("5h").unwrap(), 5 * 3600);
    assert_eq!(duration_from_human("1h2m3s").unwrap(), 3723);
    assert_eq!(duration_from_human("45s").unwrap(), 45);
    assert_eq!(duration_from_human("").unwrap(), 0);
    // the hour section is a single digit
    assert!(duration_from_human("10h").is_err());
    assert!(duration_from_human("3m2h").is_err());
    assert!(duration_from_human("12").is_err());
    let err = duration_from_human("abc").unwrap_err();
    assert_eq!(
        err.message(),
        "Failed to parse duration string, format is <HOURS>h<MINUTES>m<SECONDS>s (each section is optional) example: 22m30s"
    );
}

#[test]
fn iso8601_duration_grammar() {
    assert_eq!(from_iso8601("PT1500S").unwrap(), 1500);
    assert_eq!(from_iso8601("PT0S").unwrap(), 0);
    assert!(from_iso8601("1500S").is_err());
    assert!(from_iso8601("PT-5S").is_err());
    assert!(from_iso8601("PTS").is_err());
    let err = from_iso8601("fifteen minutes").unwrap_err();
    assert_eq!(err.message(), "String does not seem to be a duration string");
}
