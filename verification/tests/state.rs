use ctx_sync_core::clock::{local_date, parse_rfc3339};
use ctx_sync_core::model::meta::Meta;
use ctx_sync_core::state::paths::worktree_key_of;
use ctx_sync_core::Error;

#[test]
fn worktree_key_is_the_start_of_the_path_digest() {
    assert_eq!(worktree_key_of("/home/dev/project"), "1afbf223bb0b58ba");
    assert_ne!(worktree_key_of("/home/dev/other"), worktree_key_of("/home/dev/project"));
    assert_eq!(worktree_key_of("/home/dev/project").len(), 16);
}

#[test]
fn meta_schema_version_is_checked() {
    assert!(Meta::check_schema("{\"schema_version\": 1}").is_ok());
    assert!(Meta::check_schema("{\"project_name\": \"x\"}").is_ok());
    match Meta::check_schema("{\"schema_version\": 0}") {
        Err(Error::InvalidConfig(m)) => {
            assert_eq!(m, "invalid 00-meta.json: schema_version must be at least 1")
        }
        other => panic!("unexpected {other:?}"),
    }
    match Meta::check_schema("{\"schema_version\": 7}") {
        Err(Error::InvalidConfig(m)) => assert_eq!(
            m,
            "00-meta.json has schema_version 7, which requires a newer ctx-sync (this version supports 1)"
        ),
        other => panic!("unexpected {other:?}"),
    }
    match Meta::check_schema("not json") {
        Err(Error::InvalidConfig(m)) => assert!(m.starts_with("invalid 00-meta.json: ")),
        other => panic!("unexpected {other:?}"),
    }
}

#[test]
fn local_date_is_the_date_at_the_offset() {
    let t = parse_rfc3339("2026-09-23T23:30:00-02:00").unwrap();
    let d = local_date(t);
    assert_eq!((d.year, d.month, d.day), (2026, 9, 23));
    let t = parse_rfc3339("2026-09-23T23:30:00+00:00").unwrap();
    let d = local_date(t);
    assert_eq!((d.year, d.month, d.day), (2026, 9, 23));
    let t = parse_rfc3339("2026-09-24T00:30:00+01:00").unwrap();
    let d = local_date(t);
    assert_eq!((d.year, d.month, d.day), (2026, 9, 24));
}
