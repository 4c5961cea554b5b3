//! State-file and history-file rendering, parsing, and round trips.

use chrono::{DateTime, Local, TimeDelta};

use tomate::history::HistoryEntry;
use tomate::{History, Pomodoro, Status, Timer};

#[test]
fn status_to_toml() {
    let dt: DateTime<Local> = "2024-03-27T12:00:00-06:00".parse().unwrap();
    let dur = TimeDelta::new(25 * 60, 0).unwrap();

    let mut pom = Pomodoro::new(dt.timestamp(), dur.num_seconds());
    pom.set_description("test converting poms to toml");
    pom.set_tags(vec!["test".to_string(), "toml".to_string()]);

    let status = Status::Active(pom);

    let toml = status.to_toml();
    let lines: Vec<&str> = toml.lines().collect();

    assert_eq!(lines[0], "[Active]");

    assert_eq!(lines[1], "started_at = 1711562400");
    assert_eq!(lines[2], "duration = 1500");
    assert_eq!(lines[3], r#"description = "test converting poms to toml""#);
    assert_eq!(lines[4], r#"tags = ["test", "toml"]"#);
}

#[test]
fn toml_to_pom() {
    let pom: Pomodoro = Pomodoro::from_toml(
        r#"
started_at = 1712346817
duration = 1500
description = "Do something cool"
tags = ["work", "fun"]
            "#,
    )
    .expect("Could not parse pomodoro from string");

    let dt: DateTime<Local> = "2024-04-05T13:53:37-06:00".parse().unwrap();
    let dur = TimeDelta::new(25 * 60, 0).unwrap();

    assert_eq!(pom.timer().starts_at(), dt.timestamp());
    assert_eq!(pom.timer().duration(), dur.num_seconds());
    assert_eq!(pom.description(), Some("Do something cool"));
    let tags = vec!["work".to_string(), "fun".to_string()];
    assert_eq!(pom.tags().unwrap(), &tags);
}

fn round_trip(status: &Status) {
    match status.save() {
        None => {
            assert_eq!(status, &Status::Inactive);
            let loaded = Status::load(None).unwrap();
            assert_eq!(&loaded, status);
        }
        Some(contents) => {
            let loaded = Status::load(Some(&contents)).unwrap();
            assert_eq!(&loaded, status);
        }
    }
}

#[test]
fn status_round_trips_inactive() {
    round_trip(&Status::Inactive);
}

#[test]
fn status_round_trips_bare_active() {
    let pom = Pomodoro::new(1711562400, 1500);
    round_trip(&Status::Active(pom));
}

#[test]
fn status_round_trips_full_active() {
    let mut pom = Pomodoro::new(-120, 1500);
    pom.set_description("plan the week: errands, mail");
    pom.set_tags(vec!["work".to_string(), String::new(), "a, b".to_string()]);
    pom.finish(3600);
    round_trip(&Status::Active(pom));
}

#[test]
fn status_round_trips_short_break() {
    round_trip(&Status::ShortBreak(Timer::new(1711562400, 300)));
}

#[test]
fn status_round_trips_long_break() {
    round_trip(&Status::LongBreak(Timer::new(1711562400, 1200)));
}

#[test]
fn status_round_trips_empty_tags() {
    let mut pom = Pomodoro::new(1711562400, 1500);
    pom.set_tags(Vec::new());
    let status = Status::Active(pom.clone());
    let contents = status.save().unwrap();
    assert!(contents.contains("tags = []"));
    let loaded = Status::load(Some(&contents)).unwrap();
    assert_eq!(loaded, status);
    match loaded {
        Status::Active(p) => assert_eq!(p.tags(), Some(&Vec::<String>::new())),
        _ => panic!("expected an active status"),
    }
}

#[test]
fn absent_state_file_is_inactive() {
    assert_eq!(Status::load(None).unwrap(), Status::Inactive);
}

#[test]
fn corrupt_state_file_is_rejected() {
    assert!(Status::load(Some("")).is_err());
    assert!(Status::load(Some("[Active]\n")).is_err());
    assert!(Status::load(Some("[Weird]\nstarted_at = 1\nduration = 2\n")).is_err());
    assert!(Status::load(Some("[ShortBreak]\nstarted_at = 1\nduration = -2\n")).is_err());
    assert!(Status::load(Some("[ShortBreak]\nstarted_at = one\nduration = 2\n")).is_err());
}

#[test]
fn state_parsing_skips_blank_lines() {
    let contents = "\n[ShortBreak]\n   \nstarted_at = 100\nduration = 300\n   ";
    let loaded = Status::load(Some(contents)).unwrap();
    assert_eq!(loaded, Status::ShortBreak(Timer::new(100, 300)));
}

#[test]
fn history_round_trips_in_append_order() {
    let mut file = String::new();

    let mut expected_started = Vec::new();
    for k in 0..3i64 {
        let mut pom = Pomodoro::new(1000 * k, 1500);
        pom.set_description(&format!("session {}", k));
        pom.set_tags(vec![format!("tag{}", k)]);
        pom.finish(1000 * k + 900);
        let record = History::append(&pom).unwrap();
        file.push_str(&record);
        expected_started.push(1000 * k);
    }

    let history = History::load(Some(&file)).unwrap();
    let poms = history.pomodoros();
    assert_eq!(poms.len(), 3);
    for k in 0..3usize {
        assert_eq!(poms[k].timer().starts_at(), expected_started[k]);
        // the archived duration is the actual span from start to finish
        assert_eq!(poms[k].timer().duration(), 900);
        assert_eq!(poms[k].description(), Some(format!("session {}", k).as_str()));
        assert_eq!(poms[k].tags(), Some(&vec![format!("tag{}", k)]));
    }
}

#[test]
fn history_record_text_is_canonical() {
    let mut pom = Pomodoro::new(100, 1500);
    pom.finish(1000);
    let record = History::append(&pom).unwrap();
    assert_eq!(record, "[[pomodoros]]\nstarted_at = 100\nduration = 900\n\n");
}

#[test]
fn unfinished_pomodoro_is_not_archived() {
    let pom = Pomodoro::new(100, 1500);
    assert!(HistoryEntry::archive(&pom).is_err());
    let err = History::append(&pom).unwrap_err();
    assert_eq!(err.message(), "Pomodoro is not finished yet");
}

#[test]
fn absent_history_file_is_empty() {
    let history = History::load(None).unwrap();
    assert_eq!(history.pomodoros().len(), 0);
}

#[test]
fn empty_history_file_is_empty() {
    let history = History::load(Some("")).unwrap();
    assert_eq!(history.pomodoros().len(), 0);
}

#[test]
fn corrupt_history_file_is_rejected() {
    let err = History::load(Some("pomodoros = []\n")).unwrap_err();
    assert_eq!(err.message(), "Failed to parse history file");
}

#[test]
fn purge_leaves_inactive_state_and_empty_history() {
    // purge removes both files; afterwards loading finds no state file and
    // no history file, whatever was stored before
    let mut pom = Pomodoro::new(0, 1500);
    pom.finish(900);
    let status = Status::Active(pom.clone());
    assert!(status.save().is_some());
    assert!(History::append(&pom).is_ok());

    assert_eq!(Status::load(None).unwrap(), Status::Inactive);
    assert_eq!(History::load(None).unwrap().pomodoros().len(), 0);
}

#[test]
fn pom_record_with_finished_at_round_trips() {
    let pom = Pomodoro::from_toml("started_at = 100\nduration = 1500\nfinished_at = 900\n")
        .unwrap();
    assert_eq!(pom.duration(), Some(800));

    let status = Status::Active(pom);
    round_trip(&status);
}

#[test]
fn malformed_pomodoro_record_is_rejected() {
    assert!(Pomodoro::from_toml("duration = 1500\n").is_err());
    assert!(Pomodoro::from_toml("started_at = 100\nduration = 1500\nfinished_at = 50\n").is_err());
    let err = Pomodoro::from_toml("").unwrap_err();
    assert_eq!(err.message(), "Failed to parse Pomodoro");
}

#[test]
fn extreme_instants_round_trip() {
    round_trip(&Status::ShortBreak(Timer::new(i64::MIN, 0)));
    round_trip(&Status::LongBreak(Timer::new(0, i64::MAX)));
    round_trip(&Status::ShortBreak(Timer::new(-1, 1)));
}
