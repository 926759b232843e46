use ctx_sync_core::clock::{
    compact_date_text, dashed_date_text, date_from_ymd, duration_since, parse_compact_date,
    parse_dashed_date, parse_now, parse_rfc3339, rfc3339, TimeDelta,
};
use ctx_sync_core::Error;

#[test]
fn parses_fixed_time() {
    let t = parse_now(Some("2026-09-23T18:00:00+09:00")).unwrap();
    assert_eq!(rfc3339(t), "2026-09-23T18:00:00+09:00");
}

#[test]
fn rejects_invalid_time() {
    let err = parse_now(Some("x")).unwrap_err();
    assert!(matches!(err, Error::InvalidConfig(_)), "{err:?}");
}

#[test]
fn defaults_to_local_time() {
    assert!(parse_now(None).is_ok());
}

#[test]
fn fixed_time_is_trimmed() {
    let t = parse_now(Some("  2026-09-23T18:00:00Z\n")).unwrap();
    assert_eq!(rfc3339(t), "2026-09-23T18:00:00+00:00");
}

#[test]
fn date_texts() {
    let d = date_from_ymd(2026, 9, 3).unwrap();
    assert_eq!(compact_date_text(d), "20260903");
    assert_eq!(dashed_date_text(d), "2026-09-03");
    assert_eq!(parse_compact_date("20260903").unwrap(), d);
    assert_eq!(parse_dashed_date("2026-09-03").unwrap(), d);
    assert!(parse_dashed_date("2026-02-30").is_err());
    assert!(parse_compact_date("2026-09-03").is_err());
}

#[test]
fn durations_between_instants() {
    let a = parse_rfc3339("2026-09-23T18:00:00+09:00").unwrap();
    let b = parse_rfc3339("2026-09-23T10:30:00+00:00").unwrap();
    assert_eq!(duration_since(b, a).num_seconds(), 3600 + 1800);
    assert_eq!(duration_since(a, b).num_seconds(), -(3600 + 1800));
}

#[test]
fn delta_constructors_check_bounds() {
    assert_eq!(TimeDelta::try_minutes(2).unwrap().num_seconds(), 120);
    assert_eq!(TimeDelta::try_hours(1).unwrap().num_seconds(), 3600);
    assert_eq!(TimeDelta::try_days(1).unwrap().num_seconds(), 86400);
    assert_eq!(TimeDelta::try_weeks(1).unwrap().num_seconds(), 604800);
    assert!(TimeDelta::try_seconds(i64::MAX).is_none());
    assert!(TimeDelta::try_weeks(i64::MAX / 2).is_none());
    assert!(TimeDelta::try_hours(2)
        .unwrap()
        .longer_than(&TimeDelta::try_minutes(119).unwrap()));
}

#[test]
fn rfc3339_text_uses_only_time_characters() {
    let t = parse_rfc3339("2026-03-04T05:06:07.250+09:30").unwrap();
    let text = rfc3339(t);
    assert_eq!(text, "2026-03-04T05:06:07.250+09:30");
    assert!(text.chars().all(|c| c.is_ascii_digit() || "-+:T.Z".contains(c)));
}
