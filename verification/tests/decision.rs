use ctx_sync_core::clock::{date_from_ymd, Date};
use ctx_sync_core::model::decision::{slugify, Decision, DecisionId, DecisionStatus};
use ctx_sync_core::model::MdSection;

fn date(y: i32, m: u32, d: u32) -> Date {
    date_from_ymd(y, m, d).unwrap()
}

fn sample() -> Decision {
    Decision {
        id: DecisionId::new(date(2026, 9, 23), 1, "gist-storage"),
        title: "Use GitHub Gist".into(),
        status: DecisionStatus::Accepted,
        date: date(2026, 9, 23),
        author: Some("a1b2c3d4".into()),
        supersedes: vec![
            DecisionId::parse("20260901-002-local-files").unwrap(),
            DecisionId::parse("20260902-001-s3").unwrap(),
        ],
        context: "複数 sandbox から context を共有する必要がある。".into(),
        decision: "GitHub Gist を Git repository として利用する。".into(),
        reason: "- revision history\n- diff".into(),
        consequences: "Gist 固有の制約を受ける。".into(),
        extra_sections: vec![],
    }
}

#[test]
fn decision_renders_the_documented_format() {
    let text = sample().render();
    assert!(text.starts_with(
        "# Decision: Use GitHub Gist\n\nID: 20260923-001-gist-storage\nStatus: accepted\n\
         Date: 2026-09-23\nAuthor: a1b2c3d4\n\
         Supersedes: 20260901-002-local-files, 20260902-001-s3\n\n## Context\n\n"
    ));
    assert!(text.contains("## Consequences\n\nGist 固有の制約を受ける。\n"));
}

#[test]
fn decision_round_trips() {
    let decision = sample();
    let text = decision.render();
    let parsed = Decision::parse(&decision.file_name(), &text).unwrap();
    assert_eq!(parsed, decision);
    assert_eq!(parsed.render(), text);
}

#[test]
fn round_trips_without_optional_fields_and_bodies() {
    let decision = Decision {
        author: None,
        supersedes: vec![],
        context: String::new(),
        reason: String::new(),
        ..sample()
    };
    let text = decision.render();
    assert!(!text.contains("Author:"));
    assert!(!text.contains("Supersedes:"));
    assert_eq!(
        Decision::parse(&decision.file_name(), &text).unwrap(),
        decision
    );
}

#[test]
fn decision_keeps_unknown_sections() {
    let mut decision = sample();
    decision.extra_sections.push(MdSection {
        heading: "Notes".into(),
        body: "extra".into(),
    });
    let parsed = Decision::parse(&decision.file_name(), &decision.render()).unwrap();
    assert_eq!(parsed.extra_sections, decision.extra_sections);
}

#[test]
fn decision_parses_the_documented_example() {
    let text = "# Decision: Use GitHub Gist\n\nStatus: accepted\nDate: 2026-09-23\n\n\
                ## Context\n\n共有が必要。\n\n## Decision\n\nGist を使う。\n\n\
                ## Reason\n\n- diff\n\n## Consequences\n\n制約を受ける。\n";
    let decision = Decision::parse("30-decision-20260923-001-gist-storage.md", text).unwrap();
    assert_eq!(decision.title, "Use GitHub Gist");
    assert_eq!(decision.status, DecisionStatus::Accepted);
    assert_eq!(decision.decision, "Gist を使う。");
    assert!(decision.author.is_none());
}

#[test]
fn date_defaults_to_the_id_date() {
    let text = "# Decision: X\n\nStatus: proposed\n";
    let decision = Decision::parse("30-decision-20260923-001-x.md", text).unwrap();
    assert_eq!(decision.date, date(2026, 9, 23));
}

#[test]
fn missing_or_invalid_status_is_an_error() {
    assert!(Decision::parse("30-decision-20260923-001-x.md", "# Decision: X\n").is_err());
    assert!(Decision::parse(
        "30-decision-20260923-001-x.md",
        "# Decision: X\n\nStatus: maybe\n"
    )
    .is_err());
}

#[test]
fn invalid_file_name_or_supersedes_is_an_error() {
    let text = "# Decision: X\n\nStatus: accepted\n";
    assert!(Decision::parse("40-worker-x.md", text).is_err());
    let bad = "# Decision: X\n\nStatus: accepted\nSupersedes: nope\n";
    assert!(Decision::parse("30-decision-20260923-001-x.md", bad).is_err());
}

#[test]
fn slugify_examples() {
    assert_eq!(slugify("Use GitHub Gist"), "use-github-gist");
    assert_eq!(slugify("Git  transport!!"), "git-transport");
    assert_eq!(slugify("日本語"), "decision");
    assert_eq!(slugify("--x--"), "x");
    assert_eq!(slugify(&"a".repeat(60)).len(), 40);
    assert_eq!(slugify(&format!("{} b", "a".repeat(39))), "a".repeat(39));
}

#[test]
fn decision_id_parts() {
    let id = DecisionId::new(date(2026, 9, 23), 1, "a");
    assert_eq!(id.as_str(), "20260923-001-a");
    assert_eq!(id.date_str(), "20260923");
    assert_eq!(id.seq(), 1);
    assert_eq!(id.file_name(), "30-decision-20260923-001-a.md");
    assert_eq!(DecisionId::new(date(2026, 9, 23), 1234, "a").seq(), 1234);
    assert_eq!(DecisionId::parse("20260923-012-a-b-c").unwrap().seq(), 12);
}

#[test]
fn decision_id_validation() {
    for bad in [
        "",
        "2026092-001-a",
        "20260923-01-a",
        "20260923-001-",
        "20260923-001-A",
        "x",
    ] {
        assert!(DecisionId::parse(bad).is_err(), "{bad}");
    }
    assert_eq!(
        DecisionId::from_file_name("30-decision-20260923-001-a.md"),
        Some(DecisionId::parse("20260923-001-a").unwrap())
    );
    assert!(DecisionId::from_file_name("40-worker-x.md").is_none());
    assert!(DecisionId::from_file_name("30-decision-20260923-001-a.txt").is_none());
}

#[test]
fn status_parsing_is_case_insensitive() {
    assert_eq!(
        "Accepted".parse::<DecisionStatus>().unwrap(),
        DecisionStatus::Accepted
    );
    assert_eq!(
        "REJECTED".parse::<DecisionStatus>().unwrap(),
        DecisionStatus::Rejected
    );
    assert_eq!(DecisionStatus::Superseded.as_str(), "superseded");
}

#[test]
fn decision_id_slug_and_from_parts() {
    let id = DecisionId::parse("20260923-012-a-b-c").unwrap();
    assert_eq!(id.slug(), "a-b-c");
    assert_eq!(DecisionId::from_parts("20260923", 12, "a-b-c"), id);
    assert!(id.same(&DecisionId::parse("20260923-012-a-b-c").unwrap()));
    assert!(!id.same(&DecisionId::parse("20260923-013-a-b-c").unwrap()));
}

#[test]
fn dates_are_validated() {
    assert!(date_from_ymd(2026, 2, 29).is_none());
    assert!(date_from_ymd(2024, 2, 29).is_some());
    assert!(date_from_ymd(2026, 13, 1).is_none());
}
