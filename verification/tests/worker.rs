use ctx_sync_core::clock::{parse_rfc3339, Timestamp};
use ctx_sync_core::ids::{hyphenated, new_uuid, parse_uuid, short_id};
use ctx_sync_core::model::worker::{Worker, WorkerStatus};
use ctx_sync_core::model::MdSection;
use ctx_sync_core::state::worker::WorkerIdentity;

const ID: &str = "6f1c2b7e-0000-4000-8000-000000000001";

fn time(s: &str) -> Timestamp {
    parse_rfc3339(s).unwrap()
}

fn full() -> Worker {
    Worker {
        id: parse_uuid(ID).unwrap(),
        name: "parser".into(),
        status: WorkerStatus::Blocked,
        last_updated: time("2026-09-23T18:20:00+09:00"),
        branch: Some("feat/parser".into()),
        commit: Some("abc1234".into()),
        task: "Parser を実装する。".into(),
        working_on: vec!["parser state machine".into(), "error handling".into()],
        claims: vec!["src/parser/**".into(), "crates/*/Cargo.toml".into()],
        changed: vec!["src/parser.rs".into(), "src/error.rs".into()],
        interface_changes: vec!["ParserResult に warnings を追加".into()],
        attention: vec!["UI 側で ParserResult の変更への対応が必要".into()],
        blocked_by: vec!["waiting for API review".into()],
        summary: "Parser を半分実装した。".into(),
        extra_sections: vec![],
    }
}

#[test]
fn worker_renders_the_documented_format() {
    let text = full().render();
    let expected_head = format!(
        "# Worker\n\nID: {ID}\nName: parser\nStatus: blocked\n\
         Last Updated: 2026-09-23T18:20:00+09:00\n\n\
         ## Repository\n\nBranch: feat/parser\nCommit: abc1234\n\n\
         ## Task\n\nParser を実装する。\n\n\
         ## Working On\n\n- parser state machine\n- error handling\n\n\
         ## Claims\n\n- src/parser/**\n- crates/*/Cargo.toml\n\n\
         ## Changed\n\n- src/parser.rs\n- src/error.rs\n\n"
    );
    assert!(text.starts_with(&expected_head), "{text}");
    assert!(text.ends_with("## Summary\n\nParser を半分実装した。\n"), "{text}");
}

#[test]
fn full_worker_round_trips() {
    let worker = full();
    let text = worker.render();
    let parsed = Worker::parse(&text).unwrap();
    assert_eq!(parsed, worker);
    assert_eq!(parsed.render(), text);
}

#[test]
fn empty_worker_round_trips_with_all_sections() {
    let worker = Worker::new(new_uuid(), "gist", time("2026-09-23T18:00:00+09:00"));
    let text = worker.render();
    for heading in [
        "## Repository",
        "## Task",
        "## Working On",
        "## Claims",
        "## Changed",
        "## Interface Changes",
        "## Attention",
        "## Blocked By",
        "## Summary",
    ] {
        assert!(text.contains(heading), "{heading} missing:\n{text}");
    }
    assert_eq!(Worker::parse(&text).unwrap(), worker);
}

#[test]
fn parses_v01_worker_without_claims_section() {
    let mut old = full();
    old.claims.clear();
    let old_format = old.render().replace("## Claims\n\n\n", "");
    let parsed = Worker::parse(&old_format).unwrap();
    assert!(parsed.claims.is_empty());
    assert!(parsed.render().contains("## Claims\n"));
}

#[test]
fn worker_keeps_unknown_sections() {
    let mut worker = full();
    worker.extra_sections.push(MdSection {
        heading: "Notes".into(),
        body: "extra".into(),
    });
    assert_eq!(Worker::parse(&worker.render()).unwrap(), worker);
}

#[test]
fn plain_text_interface_changes_become_one_item() {
    let mut text = full().render();
    text = text.replace(
        "## Interface Changes\n\n- ParserResult に warnings を追加",
        "## Interface Changes\n\nParserResultにwarningsを追加。",
    );
    let worker = Worker::parse(&text).unwrap();
    assert_eq!(worker.interface_changes, vec!["ParserResultにwarningsを追加。"]);
}

#[test]
fn file_name_uses_the_short_id() {
    let id = parse_uuid(ID).unwrap();
    assert_eq!(Worker::file_name_for(id), "40-worker-6f1c2b7e.md");
    assert_eq!(full().file_name(), "40-worker-6f1c2b7e.md");
}

#[test]
fn invalid_or_missing_fields_are_errors() {
    let text = full().render();
    assert!(Worker::parse(&text.replace(ID, "a1b2c3")).is_err());
    assert!(Worker::parse(&text.replace("Name: parser\n", "")).is_err());
    assert!(Worker::parse(&text.replace("Status: blocked", "Status: sleeping")).is_err());
    assert!(Worker::parse(&text.replace("2026-09-23T18:20:00+09:00", "yesterday")).is_err());
}

#[test]
fn ids_print_hyphenated_and_short() {
    let id = parse_uuid(ID).unwrap();
    assert_eq!(hyphenated(id), ID);
    assert_eq!(short_id(id), "6f1c2b7e");
    assert!(parse_uuid("not-a-uuid").is_err());
}

#[test]
fn short_id_of_random_uuid_is_lowercase_hex() {
    let short = short_id(new_uuid());
    assert_eq!(short.len(), 8);
    assert!(short.chars().all(|c| c.is_ascii_hexdigit() && !c.is_ascii_uppercase()));
}

#[test]
fn new_validates_the_name() {
    assert!(WorkerIdentity::new("a b", "/w", time("2026-09-23T18:00:00+09:00")).is_err());
}

#[test]
fn short_id_has_eight_characters() {
    let identity = WorkerIdentity::new("parser", "/w", time("2026-09-23T18:00:00+09:00")).unwrap();
    assert_eq!(identity.short_id().len(), 8);
    assert!(hyphenated(identity.id).replace('-', "").starts_with(&identity.short_id()));
    assert_eq!(identity.name, "parser");
    assert_eq!(identity.worktree, "/w");
}
