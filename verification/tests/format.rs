//! Template formatting of Pomodoros and break timers.

use chrono::{DateTime, Local, TimeDelta};

use tomate::format::{format_pomodoro, format_pomodoro_local, format_timer};
use tomate::{Pomodoro, Timer};

fn fixture() -> (Pomodoro, i64, String, String) {
    let dt: DateTime<Local> = "2024-03-27T12:00:00-06:00".parse().unwrap();
    let dur = TimeDelta::new(25 * 60, 0).unwrap();
    let pom = Pomodoro::new(dt.timestamp(), dur.num_seconds());
    let start_iso = dt.to_rfc3339();
    let end_iso = (dt + dur).to_rfc3339();
    (pom, dt.timestamp(), start_iso, end_iso)
}

#[test]
fn pomodoro_format_wallclock() {
    let (pom, now, si, ei) = fixture();

    let actual_format = format_pomodoro(&pom, "%r", now, &si, &ei);

    assert_eq!(actual_format, "25:00");
}

#[test]
fn pomodoro_format_description() {
    let (mut pom, now, si, ei) = fixture();
    pom.set_description("hello :)");

    let actual_format = format_pomodoro(&pom, "%d", now, &si, &ei);

    assert_eq!(actual_format, "hello :)");
}

#[test]
fn pomodoro_format_remaining() {
    let (pom, now, si, ei) = fixture();

    let actual_format = format_pomodoro(&pom, "%R", now, &si, &ei);

    assert_eq!(actual_format, "1500");
}

#[test]
fn pomodoro_format_start_iso() {
    let (pom, now, si, ei) = fixture();

    let actual_format = format_pomodoro(&pom, "%s", now, &si, &ei);
    let expected_format = si.clone();

    assert_eq!(actual_format, expected_format);
}

#[test]
fn pomodoro_format_start_timestamp() {
    let (pom, now, si, ei) = fixture();

    let actual_format = format_pomodoro(&pom, "%S", now, &si, &ei);

    assert_eq!(actual_format, "1711562400");
}

#[test]
fn pomodoro_format_tags() {
    let (mut pom, now, si, ei) = fixture();
    pom.set_tags(vec!["a".to_string(), "b".to_string(), "c".to_string()]);

    let actual_format = format_pomodoro(&pom, "%t", now, &si, &ei);

    assert_eq!(actual_format, "a,b,c");
}

#[test]
fn pomodoro_format_eta() {
    let (pom, now, si, ei) = fixture();

    let actual_format = format_pomodoro(&pom, "%e", now, &si, &ei);
    let expected_format = ei.clone();

    assert_eq!(actual_format, expected_format);
}

#[test]
fn pomodoro_format_eta_timestamp() {
    let (pom, now, si, ei) = fixture();

    let actual_format = format_pomodoro(&pom, "%E", now, &si, &ei);

    assert_eq!(actual_format, "1711563900");
}

#[test]
fn unrecognized_tokens_pass_through() {
    let (mut pom, now, si, ei) = fixture();
    pom.set_description("work");

    let formatted = format_pomodoro(&pom, "%d %x %%R %q", now, &si, &ei);

    assert_eq!(formatted, "work %x %1500 %q");
}

#[test]
fn empty_description_and_tags_format_as_empty() {
    let (pom, now, si, ei) = fixture();

    let formatted = format_pomodoro(&pom, "<%d|%t>", now, &si, &ei);

    assert_eq!(formatted, "<|>");
}

#[test]
fn timer_format_keeps_pomodoro_tokens() {
    let timer = Timer::new(1711562400, 300);

    let formatted = format_timer(&timer, "%d %t %R", 1711562400, "si", "ei");

    assert_eq!(formatted, "%d %t 300");
}

#[test]
fn local_formatting_matches_local_zone() {
    let dt: DateTime<Local> = "2024-03-27T12:00:00-06:00".parse().unwrap();
    let pom = Pomodoro::new(dt.timestamp(), 1500);

    let formatted = format_pomodoro_local(&pom, "%s", dt.timestamp());
    let expected = chrono::TimeZone::timestamp_opt(&Local, dt.timestamp(), 0)
        .unwrap()
        .to_rfc3339();

    assert_eq!(formatted, expected);
}
