use ctx_sync_core::model::docs::{initial_architecture_md, initial_project_md};
use ctx_sync_core::model::snapshot::{classify_file, FileKind};
use ctx_sync_core::model::worker::WorkerStatus;
use ctx_sync_core::model::MdDoc;
use ctx_sync_core::ops::agent_instructions::{
    agent_instructions_section, merge_agent_instructions, InstallOutcome,
};

#[test]
fn project_template_matches_exactly() {
    assert_eq!(
        initial_project_md("demo"),
        "# Project\n\n## Goal\n\nTBD: describe the goal of demo in 1-3 lines.\n\n\
         ## Non Goals\n\n- TBD\n\n## Tech Stack\n\n- TBD\n"
    );
}

#[test]
fn architecture_template_matches_exactly() {
    assert_eq!(
        initial_architecture_md(),
        "# Architecture\n\n## Components\n\nTBD\n\n## Rules\n\n\
         - Each worker owns its own `40-worker-*.md` file. Do not edit other workers' files.\n\
         - Decisions are append-only. Add a new decision with `Supersedes:` instead of editing an old one.\n\
         - Shared files are synchronized with Git optimistic concurrency. Conflicts are never resolved automatically.\n"
    );
}

#[test]
fn templates_parse_as_documents() {
    let project = MdDoc::parse(&initial_project_md("demo")).unwrap();
    let headings: Vec<_> = project
        .sections
        .iter()
        .map(|s| s.heading.as_str())
        .collect();
    assert_eq!(project.title, "Project");
    assert_eq!(headings, ["Goal", "Non Goals", "Tech Stack"]);
    assert_eq!(project.render(), initial_project_md("demo"));

    let architecture = MdDoc::parse(&initial_architecture_md()).unwrap();
    let headings: Vec<_> = architecture
        .sections
        .iter()
        .map(|s| s.heading.as_str())
        .collect();
    assert_eq!(architecture.title, "Architecture");
    assert_eq!(headings, ["Components", "Rules"]);
    assert_eq!(architecture.render(), initial_architecture_md());
}

#[test]
fn classifies_file_names() {
    let cases = [
        ("00-meta.json", FileKind::Meta),
        ("10-project.md", FileKind::Project),
        ("20-architecture.md", FileKind::Architecture),
        ("30-decision-20260923-001-a.md", FileKind::Decision),
        ("40-worker-a1b2c3d4.md", FileKind::Worker),
        ("40-worker-a1b2c3d4.txt", FileKind::Other),
        ("README.md", FileKind::Other),
    ];
    for (name, kind) in cases {
        assert_eq!(classify_file(name), kind, "{name}");
    }
}

#[test]
fn status_parsing_and_activity() {
    assert_eq!(
        "Blocked".parse::<WorkerStatus>().unwrap(),
        WorkerStatus::Blocked
    );
    assert_eq!(WorkerStatus::Abandoned.as_str(), "abandoned");
    assert!(WorkerStatus::Working.is_active());
    assert!(WorkerStatus::Blocked.is_active());
    assert!(!WorkerStatus::Done.is_active());
    assert!(!WorkerStatus::Abandoned.is_active());
}

#[test]
fn worker_status_rejects_unknown_values() {
    assert!(WorkerStatus::parse("resting").is_err());
    assert_eq!(WorkerStatus::parse("DONE").unwrap(), WorkerStatus::Done);
}

#[test]
fn creates_the_document_with_the_specified_section() {
    let (outcome, text) = merge_agent_instructions(None);
    assert_eq!(outcome, InstallOutcome::Created);
    assert_eq!(
        text.unwrap(),
        format!("# AGENTS.md\n\n{}", agent_instructions_section())
    );
    assert_eq!(
        agent_instructions_section(),
        "## Shared Context\n\nThis project uses ctx-sync.\n\nBefore starting work:\n\n    ctx-sync agent start\n\nBefore finishing work:\n\n    ctx-sync agent finish\n\nRead shared architecture, decisions, worker state and attention items before changing overlapping code.\n\nDo not place chain-of-thought or temporary debugging reasoning into ctx-sync.\n"
    );
}

#[test]
fn appends_without_changing_existing_bytes() {
    let section = agent_instructions_section();
    for (existing, separator) in [
        ("# Existing\nKeep this line", "\n\n"),
        ("# Existing\nKeep this line\n", "\n"),
        ("# Existing\nKeep this line\n\n", ""),
    ] {
        let (outcome, merged) = merge_agent_instructions(Some(existing));
        assert_eq!(outcome, InstallOutcome::Appended);
        let merged = merged.unwrap();
        assert!(merged.starts_with(existing));
        assert_eq!(merged, format!("{existing}{separator}{section}"));
    }
}

#[test]
fn existing_heading_causes_no_change() {
    let existing = "# Existing\n\n## Shared Context\n\nCustom instructions\n";
    assert_eq!(
        merge_agent_instructions(Some(existing)),
        (InstallOutcome::AlreadyPresent, None)
    );
}

#[test]
fn heading_with_carriage_return_is_recognised() {
    let existing = "# Existing\r\n## Shared Context\r\n";
    assert_eq!(
        merge_agent_instructions(Some(existing)),
        (InstallOutcome::AlreadyPresent, None)
    );
}

#[test]
fn merging_the_instructions_twice_changes_nothing() {
    for existing in [None, Some(""), Some("# Notes\n"), Some("# Notes"), Some("x\r\n\r\n")] {
        let (_, first) = merge_agent_instructions(existing);
        let first = first.expect("the first merge writes the document");
        let (outcome, second) = merge_agent_instructions(Some(&first));
        assert_eq!(outcome, InstallOutcome::AlreadyPresent);
        assert!(second.is_none());
    }
}

#[test]
fn merging_a_merged_document_changes_nothing() {
    for existing in [None, Some("# Existing\nKeep this line"), Some("")] {
        let (_, merged) = merge_agent_instructions(existing);
        let merged = merged.unwrap();
        assert!(merged.ends_with(agent_instructions_section()));
        assert_eq!(
            merge_agent_instructions(Some(&merged)),
            (InstallOutcome::AlreadyPresent, None)
        );
    }
}
