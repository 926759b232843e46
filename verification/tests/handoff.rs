use ctx_sync_core::clock::{parse_now, Timestamp};
use ctx_sync_core::ids::new_uuid;
use ctx_sync_core::model::worker::{Worker, WorkerStatus};
use ctx_sync_core::ops::handoff::{apply_handoff, handoff_secret_warnings, plan_handoff, HandoffInput};
use ctx_sync_core::repo_info::RepoInfo;

fn t(s: &str) -> Timestamp {
    parse_now(Some(s)).unwrap()
}

fn worker() -> Worker {
    let mut w = Worker::new(new_uuid(), "parser", t("2026-09-23T18:00:00+09:00"));
    w.task = "old task".into();
    w.attention = vec!["old".into()];
    w.changed = vec!["old.rs".into()];
    w.branch = Some("old-branch".into());
    w
}

fn strings(items: &[&str]) -> Vec<String> {
    items.iter().map(|s| s.to_string()).collect()
}

const NOW: &str = "2026-09-23T19:00:00+09:00";

#[test]
fn list_values_replace_by_default() {
    let input = HandoffInput {
        attention: Some(strings(&["new", "second"])),
        ..Default::default()
    };
    let updated = apply_handoff(&worker(), &input, &RepoInfo::default(), t(NOW));
    assert_eq!(updated.attention, ["new", "second"]);
}

#[test]
fn append_adds_without_duplicates() {
    let input = HandoffInput {
        attention: Some(strings(&["old", "new", "new"])),
        append: true,
        ..Default::default()
    };
    let updated = apply_handoff(&worker(), &input, &RepoInfo::default(), t(NOW));
    assert_eq!(updated.attention, ["old", "new"]);
}

#[test]
fn changed_defaults_to_the_repository_changes() {
    let repo = RepoInfo {
        branch: None,
        commit: None,
        changed_files: strings(&["src/a.rs"]),
    };
    let updated = apply_handoff(&worker(), &HandoffInput::default(), &repo, t(NOW));
    assert_eq!(updated.changed, ["src/a.rs"]);

    let untouched = apply_handoff(&worker(), &HandoffInput::default(), &RepoInfo::default(), t(NOW));
    assert_eq!(untouched.changed, ["old.rs"]);

    let explicit = HandoffInput {
        changed: Some(strings(&["given.rs"])),
        ..Default::default()
    };
    assert_eq!(apply_handoff(&worker(), &explicit, &repo, t(NOW)).changed, ["given.rs"]);
}

#[test]
fn repository_changes_are_capped() {
    let files: Vec<String> = (0..60).map(|i| format!("src/f{i:02}.rs")).collect();
    let repo = RepoInfo {
        changed_files: files,
        ..Default::default()
    };
    let updated = apply_handoff(&worker(), &HandoffInput::default(), &repo, t(NOW));
    assert_eq!(updated.changed.len(), 51);
    assert_eq!(updated.changed[49], "src/f49.rs");
    assert_eq!(updated.changed[50], "... and 10 more files");
}

#[test]
fn nothing_given_updates_time_and_repository_only() {
    let repo = RepoInfo {
        branch: Some("feat/parser".into()),
        commit: Some("abc1234".into()),
        changed_files: vec![],
    };
    let before = worker();
    let updated = apply_handoff(&before, &HandoffInput::default(), &repo, t(NOW));
    assert_eq!(updated.last_updated, t(NOW));
    assert_eq!(updated.branch.as_deref(), Some("feat/parser"));
    assert_eq!(updated.commit.as_deref(), Some("abc1234"));
    assert_eq!(updated.task, before.task);
    assert_eq!(updated.attention, before.attention);
    assert_eq!(updated.status, before.status);
}

#[test]
fn scalars_and_status_are_replaced() {
    let input = HandoffInput {
        task: Some("new task".into()),
        summary: Some("done it".into()),
        status: Some(WorkerStatus::Done),
        ..Default::default()
    };
    let updated = apply_handoff(&worker(), &input, &RepoInfo::default(), t(NOW));
    assert_eq!(updated.task, "new task");
    assert_eq!(updated.summary, "done it");
    assert_eq!(updated.status, WorkerStatus::Done);
    assert_eq!(updated.branch.as_deref(), Some("old-branch"));
}

#[test]
fn secret_warnings_name_the_option_and_index() {
    let token = ["ghp_", "0123456789abcdefghij0123"].concat();
    let input = HandoffInput {
        summary: Some(token.clone()),
        attention: Some(vec!["fine".into(), token]),
        ..Default::default()
    };
    let warnings = handoff_secret_warnings(&input);
    assert_eq!(
        warnings,
        [
            "possible credential (github-token) in summary; do not put secrets into ctx-sync context",
            "possible credential (github-token) in attention[1]; do not put secrets into ctx-sync context",
        ]
    );
}

#[test]
fn plan_starts_a_fresh_worker_and_warns_about_claimed_files() {
    let mut other = Worker::new(7, "ui", t(NOW));
    other.claims = vec!["src/ui/**".into()];
    let input = HandoffInput {
        changed: Some(strings(&["src/ui/a.rs", "README.md"])),
        ..Default::default()
    };
    let plan = plan_handoff(None, 9, "parser", &input, &RepoInfo::default(), &[other], t(NOW));
    assert_eq!(plan.worker.id, 9);
    assert_eq!(plan.worker.name, "parser");
    assert_eq!(plan.worker.changed, ["src/ui/a.rs", "README.md"]);
    assert_eq!(plan.commit_message, "ctx-sync: handoff parser");
    assert_eq!(plan.warnings.len(), 1);
    assert!(plan.warnings[0].starts_with("src/ui/a.rs overlaps with ui ("));
    assert!(plan.warnings[0].ends_with(")'s claim src/ui/**"));
}
