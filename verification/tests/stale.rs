use ctx_sync_core::clock::{parse_rfc3339, TimeDelta, Timestamp};
use ctx_sync_core::model::stale::{default_stale_after, format_age, is_stale, parse_duration};
use ctx_sync_core::model::worker::{Worker, WorkerStatus};
use ctx_sync_core::Error;

fn t(s: &str) -> Timestamp {
    parse_rfc3339(s).unwrap()
}

fn now() -> Timestamp {
    t("2026-09-26T18:00:00+09:00")
}

#[test]
fn only_active_workers_older_than_the_threshold_are_stale() {
    // Updated 25 hours before now.
    let mut worker = Worker::new(0, "parser", t("2026-09-25T17:00:00+09:00"));
    assert!(is_stale(&worker, now(), default_stale_after()));
    worker.status = WorkerStatus::Blocked;
    assert!(is_stale(&worker, now(), default_stale_after()));
    worker.status = WorkerStatus::Done;
    assert!(!is_stale(&worker, now(), default_stale_after()));
    worker.status = WorkerStatus::Abandoned;
    assert!(!is_stale(&worker, now(), default_stale_after()));
    worker.status = WorkerStatus::Working;
    // 24 hours: exactly the threshold.
    worker.last_updated = t("2026-09-25T18:00:00+09:00");
    assert!(!is_stale(&worker, now(), default_stale_after()));
    // 23 hours.
    worker.last_updated = t("2026-09-25T19:00:00+09:00");
    assert!(!is_stale(&worker, now(), default_stale_after()));
}

#[test]
fn parses_positive_whole_durations_and_rejects_other_values() {
    for (input, expected) in [
        ("90m", TimeDelta::try_minutes(90).unwrap()),
        ("24h", TimeDelta::try_hours(24).unwrap()),
        ("3d", TimeDelta::try_days(3).unwrap()),
        ("1w", TimeDelta::try_weeks(1).unwrap()),
        (" 2h ", TimeDelta::try_hours(2).unwrap()),
    ] {
        assert_eq!(parse_duration(input).unwrap(), expected);
    }
    for input in [
        "",
        "0h",
        "-1h",
        "+1h",
        "3",
        "3x",
        "1.5h",
        "3日",
        "999999999999999999999w",
    ] {
        assert!(matches!(parse_duration(input), Err(Error::InvalidConfig(_))));
    }
}

#[test]
fn formats_elapsed_time_without_rounding_up() {
    assert_eq!(format_age(TimeDelta::try_seconds(30).unwrap()), "just now");
    assert_eq!(format_age(TimeDelta::try_minutes(59).unwrap()), "59m");
    assert_eq!(format_age(TimeDelta::try_hours(3).unwrap()), "3h");
    assert_eq!(format_age(TimeDelta::try_hours(50).unwrap()), "2d");
}

#[test]
fn the_default_threshold_is_a_day() {
    assert_eq!(default_stale_after().num_seconds(), 86400);
}
