use ctx_sync_core::model::claim::overlaps;
use ctx_sync_core::model::decision::{slugify, DecisionId};
use ctx_sync_core::bootstrap::docs::doc_files;
use ctx_sync_core::bootstrap::repo::{compose_report, unknown_questions};
use ctx_sync_core::bootstrap::report::Finding;
use ctx_sync_core::clock::{local_date_in_range, Timestamp, MAX_LOCAL_SECS, MIN_LOCAL_SECS};
use ctx_sync_core::gh::gist_create_failure;
use ctx_sync_core::ids::new_uuid;
use ctx_sync_core::model::snapshot::snapshot_meta;
use ctx_sync_core::Error;

fn strings(v: &[&str]) -> Vec<String> {
    v.iter().map(|s| s.to_string()).collect()
}

#[test]
fn docs_files_are_markdown_shallow_visible_and_sorted() {
    let found = strings(&[
        "docs/sub/c.txt",
        "docs/sub/b.md",
        "docs/a.md",
        "docs/.hidden.md",
        "docs/.git/x.md",
        "docs/1/2/3/deep.md",
        "docs/1/2/shallow.md",
        "other/x.md",
        "docs/a-b.md",
        "docs/a/x.md",
    ]);
    assert_eq!(
        doc_files(found),
        strings(&[
            "docs/1/2/shallow.md",
            "docs/a/x.md",
            "docs/a-b.md",
            "docs/a.md",
            "docs/sub/b.md",
        ])
    );
}

#[test]
fn at_most_twenty_docs_files_are_read() {
    let found: Vec<String> = (0..30).rev().map(|i| format!("docs/f{i:02}.md")).collect();
    let chosen = doc_files(found);
    assert_eq!(chosen.len(), 20);
    assert_eq!(chosen[0], "docs/f00.md");
    assert_eq!(chosen[19], "docs/f19.md");
}

#[test]
fn gh_failures_mentioning_auth_are_authentication_errors() {
    match gist_create_failure("  HTTP 401: Bad credentials (Authentication required)\n") {
        Error::Auth(m) => assert_eq!(
            m,
            "gh gist create failed: HTTP 401: Bad credentials (Authentication required)"
        ),
        other => panic!("unexpected {other:?}"),
    }
    match gist_create_failure("network unreachable\n") {
        Error::Remote(m) => assert_eq!(m, "gh gist create failed: network unreachable"),
        other => panic!("unexpected {other:?}"),
    }
}

#[test]
fn report_keeps_its_order() {
    let f = |t: &str| Finding::confirmed("Topic", t, None);
    let report = compose_report(vec![f("m")], vec![f("d")], vec![], vec![f("g")]);
    let texts: Vec<&str> = report.findings.iter().map(|x| x.text.as_str()).collect();
    let questions = unknown_questions();
    assert_eq!(&texts[..3], ["m", "d", "g"]);
    assert_eq!(report.findings.len(), 3 + questions.len());
    assert_eq!(report.findings[3..], questions[..]);
}

#[test]
fn missing_meta_is_invalid_config() {
    let err = snapshot_meta(None).unwrap_err();
    assert!(matches!(err, Error::InvalidConfig(_)), "{err:?}");
    assert!(err.message().contains("00-meta.json not found"));
    assert_eq!(
        snapshot_meta(Some("{\"schema_version\": 1}".to_string())).unwrap(),
        "{\"schema_version\": 1}"
    );
    assert!(matches!(
        snapshot_meta(Some("{\"schema_version\": 9}".to_string())),
        Err(Error::InvalidConfig(_))
    ));
}

#[test]
fn local_dates_exist_only_inside_chrono_range() {
    let at = |secs: i64, offset: i32| Timestamp { secs, nanos: 0, offset };
    assert!(local_date_in_range(at(MAX_LOCAL_SECS, 0)));
    assert!(!local_date_in_range(at(MAX_LOCAL_SECS, 3600)));
    assert!(local_date_in_range(at(MAX_LOCAL_SECS - 3600, 3600)));
    assert!(!local_date_in_range(at(MIN_LOCAL_SECS, -60)));
    assert!(local_date_in_range(at(0, 32400)));
}

#[test]
fn new_uuids_are_version_four() {
    for _ in 0..20 {
        let id = new_uuid();
        assert_eq!((id >> 76) & 0xf, 4);
        assert_eq!((id >> 62) & 0x3, 2);
    }
}

#[test]
fn decision_ids_have_the_documented_shape() {
    for bad in ["", "2026092-001-a", "20260923-01-a", "20260923-001-", "20260923-001-A", "x"] {
        assert!(DecisionId::parse(bad).is_err(), "{bad}");
    }
    let id = DecisionId::parse("20260923-001-a").unwrap();
    assert_eq!(id.as_str(), "20260923-001-a");
    assert_eq!(
        DecisionId::from_file_name("30-decision-20260923-001-a.md").map(|d| d.as_str().to_string()),
        Some("20260923-001-a".to_string())
    );
    assert!(DecisionId::from_file_name("40-worker-x.md").is_none());
    assert!(DecisionId::from_file_name("30-decision-20260923-001-a.txt").is_none());
}

#[test]
fn slugs_are_short_clean_and_never_empty() {
    assert_eq!(slugify("!!! ???"), "decision");
    assert_eq!(slugify("  Use Gist -- storage!  "), "use-gist-storage");
    let long = slugify(&"word ".repeat(20));
    assert!(long.len() <= 40);
    assert!(!long.starts_with('-') && !long.ends_with('-') && !long.contains("--"));
}

#[test]
fn overlap_is_symmetric_and_reflexive() {
    let pats = ["src/a/**", "src/*.rs", "docs/x.md", "src/a/b.rs", "*"];
    for a in pats {
        assert!(overlaps(a, a));
        for b in pats {
            assert_eq!(overlaps(a, b), overlaps(b, a), "{a} {b}");
        }
    }
}
