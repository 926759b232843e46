use ctx_sync_core::clock::{date_from_ymd, parse_rfc3339, Timestamp};
use ctx_sync_core::ids::{new_uuid, parse_uuid, short_id};
use ctx_sync_core::model::decision::{Decision, DecisionId, DecisionStatus};
use ctx_sync_core::model::docs::{initial_architecture_md, initial_project_md};
use ctx_sync_core::model::meta::Meta;
use ctx_sync_core::model::snapshot::{snapshot_file_names, ContextSnapshot, FileText};
use ctx_sync_core::model::worker::Worker;
use ctx_sync_core::state::StateRoot;

fn now() -> Timestamp {
    parse_rfc3339("2026-09-23T18:00:00+09:00").unwrap()
}

fn decision(seq: u32, slug: &str) -> Decision {
    let date = date_from_ymd(2026, 9, 23).unwrap();
    Decision {
        id: DecisionId::new(date, seq, slug),
        title: slug.into(),
        status: DecisionStatus::Accepted,
        date,
        author: None,
        supersedes: vec![],
        context: String::new(),
        decision: slug.into(),
        reason: String::new(),
        consequences: String::new(),
        extra_sections: vec![],
    }
}

/// The files of a full context, by name.
fn full_repo() -> Vec<(String, String)> {
    let mut files = vec![
        ("10-project.md".to_string(), initial_project_md("demo")),
        ("20-architecture.md".to_string(), initial_architecture_md()),
    ];
    for d in [decision(2, "b"), decision(1, "a")] {
        files.push((d.file_name(), d.render()));
    }
    for name in ["zeta", "alpha"] {
        let worker = Worker::new(new_uuid(), name, now());
        files.push((worker.file_name(), worker.render()));
    }
    files
}

/// The snapshot of the given files, read the way the context repository is.
fn load(files: &[(String, String)]) -> ContextSnapshot {
    let text = |name: &str| {
        files
            .iter()
            .find(|(n, _)| n == name)
            .map(|(_, t)| FileText::Text(t.clone()))
            .unwrap_or(FileText::Missing)
    };
    let names = snapshot_file_names(files.iter().map(|(n, _)| n.clone()).collect());
    let wanted = names.iter().map(|n| (n.clone(), text(n))).collect();
    ContextSnapshot::assemble(
        Meta::new("demo", now()),
        text("10-project.md"),
        text("20-architecture.md"),
        wanted,
    )
}

#[test]
fn loads_every_file_in_order() {
    let snapshot = load(&full_repo());
    assert_eq!(snapshot.meta.project_name, "demo");
    assert_eq!(snapshot.project.title, "Project");
    assert_eq!(snapshot.architecture.title, "Architecture");
    let ids: Vec<_> = snapshot.decisions.iter().map(|d| d.id.as_str()).collect();
    assert_eq!(ids, ["20260923-001-a", "20260923-002-b"]);
    let names: Vec<_> = snapshot.workers.iter().map(|w| w.name.as_str()).collect();
    assert_eq!(names, ["alpha", "zeta"]);
    assert!(snapshot.warnings.is_empty(), "{:?}", snapshot.warnings);
}

#[test]
fn broken_worker_is_skipped_with_a_warning() {
    let mut files = full_repo();
    files.push((
        "40-worker-deadbeef.md".to_string(),
        "# Worker\n\nName: broken\n".to_string(),
    ));
    let snapshot = load(&files);
    assert_eq!(snapshot.workers.len(), 2);
    assert_eq!(snapshot.warnings.len(), 1);
    assert!(snapshot.warnings[0].starts_with("skipped 40-worker-deadbeef.md:"));
}

#[test]
fn broken_decision_is_skipped_with_a_warning() {
    let mut files = full_repo();
    files.push((
        "30-decision-20260923-009-x.md".to_string(),
        "# Decision: x\n".to_string(),
    ));
    let snapshot = load(&files);
    assert_eq!(snapshot.decisions.len(), 2);
    assert_eq!(snapshot.warnings.len(), 1);
}

#[test]
fn missing_project_and_architecture_are_warnings() {
    let snapshot = load(&[]);
    assert_eq!(snapshot.project.title, "Project");
    assert!(snapshot.project.sections.is_empty());
    assert_eq!(snapshot.architecture.title, "Architecture");
    assert_eq!(snapshot.warnings.len(), 2, "{:?}", snapshot.warnings);
}

#[test]
fn ignores_other_files_and_directories() {
    let mut files = full_repo();
    files.push(("README.md".to_string(), "# gist\n".to_string()));
    files.push((".hidden-40-worker-x.md".to_string(), "junk".to_string()));
    let snapshot = load(&files);
    assert_eq!(snapshot.workers.len(), 2);
    assert_eq!(snapshot.decisions.len(), 2);
    assert!(snapshot.warnings.is_empty(), "{:?}", snapshot.warnings);
}

#[test]
fn short_id_is_first_eight_hex_chars() {
    let id = parse_uuid("6f1c2b7e-0000-4000-8000-000000000001").unwrap();
    assert_eq!(short_id(id), "6f1c2b7e");
}

#[test]
fn project_paths_are_under_projects_dir() {
    let root = StateRoot::new("/state");
    let id = parse_uuid("6f1c2b7e-0000-4000-8000-000000000001").unwrap();
    let project = root.project(id);
    let dir = "/state/projects/6f1c2b7e-0000-4000-8000-000000000001";
    assert_eq!(project.dir(), dir);
    assert_eq!(project.context_repo(), format!("{dir}/context-repo"));
    assert_eq!(project.local_json(), format!("{dir}/local.json"));
    assert_eq!(project.conflict_json(), format!("{dir}/conflict.json"));
    assert_eq!(project.lock_path(), format!("{dir}/context-repo.lock"));
    assert_eq!(project.workers_dir(), format!("{dir}/workers"));
    assert_eq!(root.index_path(), "/state/index.json");
    assert_eq!(root.tmp_dir(), "/state/tmp");
}
