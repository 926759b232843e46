use ctx_sync_core::bootstrap::docs::{docs_findings, headings, readme_findings, shorten};
use ctx_sync_core::bootstrap::manifest::{
    cargo, dependency_findings, go_mod, infer_from_dependency, package_json, pyproject,
};
use ctx_sync_core::bootstrap::repo::{git_log_findings, tree_findings, unknown_questions, visible_dirs};
use ctx_sync_core::bootstrap::report::{Certainty, Finding};
use ctx_sync_core::git::GitOutput;

fn lines(findings: &[Finding]) -> Vec<String> {
    findings
        .iter()
        .map(|f| format!("{:?} {}: {}", f.certainty, f.topic, f.text))
        .collect()
}

fn texts(findings: &[Finding], certainty: Certainty) -> Vec<String> {
    findings
        .iter()
        .filter(|f| f.certainty == certainty)
        .map(|f| format!("{}: {}", f.topic, f.text))
        .collect()
}

#[test]
fn unknown_questions_are_all_unknown() {
    let questions = unknown_questions();
    assert_eq!(questions.len(), 4);
    assert!(questions.iter().all(|q| q.certainty == Certainty::Unknown));
}

#[test]
fn readme_title_and_summary() {
    let readme = "# ctx-sync\n\nSync shared context\nbetween agents.\n\n## Install\n\ncargo install\n";
    assert_eq!(
        lines(&docs_findings(Some(readme), &vec![], &vec![])),
        [
            "Confirmed Title: ctx-sync",
            "Confirmed README summary: Sync shared context between agents.",
        ]
    );
}

#[test]
fn long_summary_is_shortened() {
    let readme = format!("# T\n\n{}\n", "word ".repeat(60));
    let findings = readme_findings(&readme);
    let summary = &findings[1].text;
    assert_eq!(summary.chars().count(), 201);
    assert!(summary.ends_with('…'));
    assert_eq!(shorten("short"), "short");
}

#[test]
fn agent_documents_and_docs_tree() {
    let documents = vec![(
        "AGENTS.md".to_string(),
        "# Agents\n\n## Setup\n\n```\n## not a heading\n```\n\n## Testing\n".to_string(),
    )];
    let docs = vec![
        ("docs/a.md".to_string(), "# Architecture\n".to_string()),
        ("docs/sub/b.md".to_string(), "no heading\n".to_string()),
    ];
    let findings = docs_findings(Some("# T\n"), &documents, &docs);
    assert_eq!(
        lines(&findings),
        [
            "Confirmed Title: T",
            "Confirmed Document: AGENTS.md (headings: Setup, Testing)",
            "Confirmed Docs: docs/a.md — Architecture",
            "Confirmed Docs: docs/sub/b.md",
        ]
    );
    assert_eq!(findings[3].source.as_deref(), Some("docs/sub/b.md"));
}

#[test]
fn missing_readme_is_unknown() {
    let findings = docs_findings(None, &vec![], &vec![]);
    assert_eq!(findings.len(), 1);
    assert_eq!(findings[0].certainty, Certainty::Unknown);
    assert_eq!(findings[0].topic, "Purpose");
}

#[test]
fn headings_skip_fenced_code() {
    assert_eq!(headings("# A\n  ```\n# B\n```\n# C\n", "# "), ["A", "C"]);
    assert!(readme_findings("no title\n").is_empty());
}

#[test]
fn git_log_lists_recent_subjects() {
    let stdout: String = (0..12).rev().map(|i| format!("change {i}\n")).collect();
    let out = GitOutput { success: true, code: Some(0), stdout, stderr: String::new() };
    let findings = git_log_findings(&out);
    assert_eq!(findings.len(), 1);
    let subjects: Vec<&str> = findings[0].text.split("; ").collect();
    assert_eq!(subjects.len(), 10);
    assert_eq!(subjects[0], "change 11");
    assert_eq!(findings[0].source.as_deref(), Some("git log"));
}

#[test]
fn git_log_outside_a_repository_is_empty() {
    let failed = GitOutput { success: false, code: Some(128), stdout: String::new(), stderr: "fatal".into() };
    assert!(git_log_findings(&failed).is_empty());
    let empty = GitOutput { success: true, code: Some(0), stdout: "\n  \n".into(), stderr: String::new() };
    assert!(git_log_findings(&empty).is_empty());
}

#[test]
fn tree_lists_visible_directories() {
    let top = visible_dirs(vec![
        "src".into(),
        "target".into(),
        "crates".into(),
        ".git".into(),
        "node_modules".into(),
    ]);
    assert_eq!(top, ["crates", "src"]);
    let entries = vec![
        ("crates".to_string(), visible_dirs(vec!["b".into(), "a".into()])),
        ("src".to_string(), vec![]),
    ];
    let findings = tree_findings(&entries);
    assert_eq!(findings.len(), 1);
    assert_eq!(findings[0].text, "crates/ (a, b), src/");
    assert_eq!(findings[0].certainty, Certainty::Confirmed);
}

#[test]
fn empty_tree_has_no_finding() {
    assert!(tree_findings(&vec![]).is_empty());
}

#[test]
fn rust_binary_crate() {
    let text = "[package]\nname = \"demo\"\nversion = \"0.1.0\"\n\n[dependencies]\ntokio = \"1\"\nclap = \"4\"\nserde = \"1\"\n";
    let findings = cargo(Some(text), true, false);
    assert_eq!(
        texts(&findings, Certainty::Confirmed),
        [
            "Language: Rust",
            "Package: demo",
            "Crate type: binary",
            "Dependencies: clap, serde, tokio",
        ]
    );
    assert_eq!(
        texts(&findings, Certainty::Inferred),
        [
            "Interface: This appears to be a CLI application (clap).",
            "Async runtime: Tokio appears to be used as the async runtime.",
        ]
    );
    assert!(findings.iter().all(|f| f.source.as_deref() == Some("Cargo.toml")));
}

#[test]
fn rust_workspace_uses_workspace_dependencies() {
    let text = "[workspace]\nmembers = [\"crates/a\", \"crates/b\"]\n\n[workspace.dependencies]\nreqwest = \"0.12\"\n";
    let findings = cargo(Some(text), false, false);
    let confirmed = texts(&findings, Certainty::Confirmed);
    assert!(confirmed.contains(&"Workspace members: crates/a, crates/b".to_string()));
    assert!(confirmed.contains(&"Dependencies: reqwest".to_string()));
    assert_eq!(
        texts(&findings, Certainty::Inferred),
        ["HTTP client: reqwest appears to be used as the HTTP client."]
    );
}

#[test]
fn typescript_package() {
    let text = r#"{"name": "web", "scripts": {"build": "tsc", "test": "jest"},
            "dependencies": {"react": "^18"},
            "devDependencies": {"typescript": "^5", "jest": "^29"}}"#;
    let findings = package_json(Some(text), false);
    let confirmed = texts(&findings, Certainty::Confirmed);
    assert_eq!(confirmed[0], "Language: TypeScript");
    assert!(confirmed.contains(&"Package: web".to_string()));
    assert!(confirmed.contains(&"Scripts: build, test".to_string()));
    assert_eq!(
        texts(&findings, Certainty::Inferred),
        [
            "UI framework: react appears to be used for the UI.",
            "Testing: jest appears to be used for tests.",
        ]
    );
}

#[test]
fn javascript_without_typescript() {
    let findings = package_json(Some(r#"{"dependencies": {"express": "^4"}}"#), false);
    assert_eq!(texts(&findings, Certainty::Confirmed)[0], "Language: JavaScript");
    assert_eq!(
        texts(&findings, Certainty::Inferred),
        ["Web framework: express appears to be used as the HTTP server."]
    );
    let with_tsconfig = package_json(Some("{}"), true);
    assert_eq!(texts(&with_tsconfig, Certainty::Confirmed), ["Language: TypeScript"]);
}

#[test]
fn go_and_python() {
    let mut findings = go_mod(Some("module example.com/demo\n\ngo 1.22\n"));
    findings.extend(pyproject(Some(
        "[project]\nname = \"api\"\ndependencies = [\"fastapi>=0.100\", \"pydantic\"]\n",
    )));
    assert_eq!(
        texts(&findings, Certainty::Confirmed),
        [
            "Language: Go",
            "Module: example.com/demo",
            "Go version: 1.22",
            "Language: Python",
            "Package: api",
            "Dependencies: fastapi, pydantic",
        ]
    );
}

#[test]
fn empty_and_broken_manifests_give_nothing() {
    assert!(cargo(None, true, true).is_empty());
    assert!(package_json(None, true).is_empty());
    assert!(go_mod(None).is_empty());
    assert!(pyproject(None).is_empty());
    assert!(cargo(Some("[package\nname = "), false, false).is_empty());
    assert!(package_json(Some("{"), false).is_empty());
}

#[test]
fn inferences_ignore_case_and_repeat_once() {
    let (topic, text) = infer_from_dependency("Axum").unwrap();
    assert_eq!(topic, "Web framework");
    assert_eq!(text, "axum appears to be used as the web framework.");
    assert!(infer_from_dependency("left-pad").is_none());
    let names: Vec<String> = ["tokio", "TOKIO", "serde"].iter().map(|s| s.to_string()).collect();
    let findings = dependency_findings(&names, "Cargo.toml");
    assert_eq!(
        texts(&findings, Certainty::Inferred),
        ["Async runtime: Tokio appears to be used as the async runtime."]
    );
    let many: Vec<String> = (0..25).map(|i| format!("d{i:02}")).collect();
    let findings = dependency_findings(&many, "x");
    assert_eq!(findings[0].text.split(", ").count(), 20);
}
