use ctx_sync_core::bootstrap::report::{BootstrapReport, Finding};

fn report() -> BootstrapReport {
    let mut report = BootstrapReport::default();
    report.extend(vec![
        Finding::confirmed("Language", "Rust", Some("Cargo.toml")),
        Finding::inferred(
            "Async runtime",
            "Tokio appears to be used as the async runtime.",
            Some("Cargo.toml"),
        ),
        Finding::unknown("Goal", "The project goal has not been confirmed."),
        Finding::confirmed("Crate type", "binary", None),
    ]);
    report
}

#[test]
fn renders_the_three_groups() {
    assert_eq!(
        report().render_markdown(),
        "# Initial Context

## Confirmed

- Language: Rust (source: Cargo.toml)
- Crate type: binary

## Inferred

- Async runtime: Tokio appears to be used as the async runtime. (source: Cargo.toml)

## Unknown

- Goal: The project goal has not been confirmed.
"
    );
}

#[test]
fn empty_groups_say_none() {
    let mut report = BootstrapReport::default();
    report.extend(vec![Finding::confirmed("Language", "Go", None)]);
    let text = report.render_markdown();
    assert!(text.contains("## Inferred\n\n- _None_\n"));
    assert!(text.ends_with("## Unknown\n\n- _None_\n"));
}

#[test]
fn section_body_uses_level_three_headings() {
    let body = report().render_section_body();
    assert!(body.starts_with("### Confirmed\n\n"));
    assert!(!body.contains("# Initial Context"));
    assert!(body.contains("\n### Unknown\n"));
}

#[test]
fn section_body_is_the_markdown_demoted_by_one_level() {
    let report = report();
    let markdown = report.render_markdown();
    let rest = markdown.strip_prefix("# Initial Context\n\n").unwrap();
    assert_eq!(
        ctx_sync_core::model::md::demote_headings(rest, 1),
        report.render_section_body()
    );
}
