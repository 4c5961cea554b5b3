//! Timer arithmetic and duration rendering.

use chrono::{DateTime, Local, TimeDelta};

use tomate::duration::{to_human, to_kitchen};
use tomate::{Pomodoro, Timer};

#[test]
fn time_elapsed() {
    let dt: DateTime<Local> = "2024-03-27T12:00:00-06:00".parse().unwrap();
    let dt_later: DateTime<Local> = "2024-03-27T12:20:00-06:00".parse().unwrap();
    let dur = TimeDelta::new(25 * 60, 0).unwrap();

    let pom = Pomodoro::new(dt.timestamp(), dur.num_seconds());

    let expected_elapsed = TimeDelta::new(20 * 60, 0).unwrap();

    assert_eq!(pom.timer().elapsed(dt_later.timestamp()), expected_elapsed.num_seconds());
}

#[test]
fn time_remaining() {
    let dt: DateTime<Local> = "2024-03-27T12:00:00-06:00".parse().unwrap();
    let dt_later: DateTime<Local> = "2024-03-27T12:20:00-06:00".parse().unwrap();
    let dur = TimeDelta::new(25 * 60, 0).unwrap();

    let pom = Pomodoro::new(dt.timestamp(), dur.num_seconds());

    let expected_remaining = TimeDelta::new(5 * 60, 0).unwrap();

    assert_eq!(pom.timer().remaining(dt_later.timestamp()), expected_remaining.num_seconds());
}

#[test]
fn kitchen_test() {
    let dur = TimeDelta::new(25 * 60, 0).unwrap();

    let clock = to_kitchen(dur.num_seconds());

    assert_eq!(clock, "25:00");
}

#[test]
fn kitchen_seconds_test() {
    let dur = TimeDelta::new(12, 0).unwrap();

    let clock = to_kitchen(dur.num_seconds());

    assert_eq!(clock, "00:12");
}

#[test]
fn elapsed_is_zero_before_start() {
    let timer = Timer::new(1000, 600);
    assert_eq!(timer.elapsed(1000), 0);
    assert_eq!(timer.elapsed(999), 0);
    assert_eq!(timer.elapsed(-5), 0);
}

#[test]
fn elapsed_saturates_at_duration() {
    let timer = Timer::new(1000, 600);
    assert_eq!(timer.elapsed(1600), 600);
    assert_eq!(timer.elapsed(1601), 600);
    assert_eq!(timer.elapsed(i64::MAX), 600);
    assert_eq!(timer.remaining(1600), 0);
    assert_eq!(timer.remaining(99999), 0);
}

#[test]
fn elapsed_plus_remaining_is_duration() {
    let timer = Timer::new(1000, 600);
    for now in [-10, 999, 1000, 1001, 1300, 1599, 1600, 1601, 20000] {
        assert_eq!(timer.elapsed(now) + timer.remaining(now), 600);
    }
}

#[test]
fn done_boundary_is_strict() {
    let timer = Timer::new(1000, 600);
    assert_eq!(timer.ends_at(), 1600);
    assert!(!timer.done(1600));
    assert!(timer.done(1601));
}

#[test]
fn kitchen_shows_hours_when_needed() {
    assert_eq!(to_kitchen(3661), "01:01:01");
    assert_eq!(to_kitchen(3600), "01:00:00");
    assert_eq!(to_kitchen(3599), "59:59");
    assert_eq!(to_kitchen(0), "00:00");
}

#[test]
fn human_omits_zero_components() {
    assert_eq!(to_human(1500), "25m");
    assert_eq!(to_human(0), "0s");
    assert_eq!(to_human(3661), "1h1m1s");
    assert_eq!(to_human(3600), "1h");
    assert_eq!(to_human(90), "1m30s");
}
