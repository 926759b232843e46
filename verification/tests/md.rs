use ctx_sync_core::model::md::{demote_headings, parse_fields, parse_list, render_fields, render_list};
use ctx_sync_core::model::MdDoc;

const WORKER: &str = "# Worker

ID: 123
Name: parser

## Task

Parser を実装する。

## Changed

- src/a.rs
- src/b.rs
";

#[test]
fn parses_title_fields_and_sections() {
    let doc = MdDoc::parse(WORKER).unwrap();
    assert_eq!(doc.title, "Worker");
    assert_eq!(doc.field("ID"), Some("123"));
    assert_eq!(doc.field("Name"), Some("parser"));
    assert_eq!(doc.preamble, "");
    assert_eq!(doc.section_body("Task"), Some("Parser を実装する。"));
    assert_eq!(doc.section_body("Changed"), Some("- src/a.rs\n- src/b.rs"));
}

#[test]
fn md_round_trips() {
    assert_eq!(MdDoc::parse(WORKER).unwrap().render(), WORKER);
}

#[test]
fn headings_inside_fences_are_not_sections() {
    let doc = MdDoc::parse("# T\n\n## A\n\n```\n## not a heading\n```\n\n## B\n").unwrap();
    assert_eq!(doc.sections.len(), 2);
    assert_eq!(doc.section_body("A"), Some("```\n## not a heading\n```"));
    let doc = MdDoc::parse("# T\n\n## A\n\n~~~\n## still code\n~~~\n").unwrap();
    assert_eq!(doc.sections.len(), 1);
}

#[test]
fn deeper_headings_stay_in_the_body() {
    let doc = MdDoc::parse("# T\n\n## A\n\n### Sub\n\ntext\n").unwrap();
    assert_eq!(doc.section_body("A"), Some("### Sub\n\ntext"));
}

#[test]
fn extra_blank_lines_are_normalized() {
    let messy = "\n\n# T\r\n\r\nK: v\n\n\n\n## A\n\n\n\nbody\n\n\n\n## B\n\n\n";
    let doc = MdDoc::parse(messy).unwrap();
    assert_eq!(doc.render(), "# T\n\nK: v\n\n## A\n\nbody\n\n## B\n");
    assert_eq!(MdDoc::parse(&doc.render()).unwrap(), doc);
}

#[test]
fn keeps_preamble_lines() {
    let doc = MdDoc::parse("# T\n\nKey: v\nSome free text.\n\n## A\n").unwrap();
    assert_eq!(doc.fields, vec![("Key".into(), "v".into())]);
    assert_eq!(doc.preamble, "Some free text.");
    assert_eq!(MdDoc::parse(&doc.render()).unwrap(), doc);
}

#[test]
fn field_value_keeps_colons() {
    let doc = MdDoc::parse("# T\n\nLast Updated: 2026-09-23T18:20:00+09:00\n").unwrap();
    assert_eq!(doc.field("Last Updated"), Some("2026-09-23T18:20:00+09:00"));
}

#[test]
fn missing_title_is_an_error() {
    assert!(MdDoc::parse("no title\n").is_err());
    assert!(MdDoc::parse("").is_err());
    assert!(MdDoc::parse("## Section only\n").is_err());
}

#[test]
fn set_section_replaces_or_appends() {
    let mut doc = MdDoc::parse(WORKER).unwrap();
    doc.set_section("Task", "\nNew task\n\n");
    assert_eq!(doc.section_body("Task"), Some("New task"));
    assert_eq!(doc.sections[0].heading, "Task");
    doc.set_section("Summary", "done");
    assert_eq!(doc.sections.last().unwrap().heading, "Summary");
    assert_eq!(doc.sections.len(), 3);
}

#[test]
fn set_field_replaces_or_appends() {
    let mut doc = MdDoc::parse(WORKER).unwrap();
    doc.set_field("Name", "gist");
    doc.set_field("Status", "working");
    assert_eq!(
        doc.fields,
        vec![
            ("ID".into(), "123".into()),
            ("Name".into(), "gist".into()),
            ("Status".into(), "working".into()),
        ]
    );
}

#[test]
fn parse_list_handles_bullets_text_and_empty() {
    assert_eq!(parse_list("- a\n* b\n-   c  "), vec!["a", "b", "c"]);
    assert_eq!(
        parse_list("ParserResult に warnings を追加。"),
        vec!["ParserResult に warnings を追加。"]
    );
    assert!(parse_list("  \n").is_empty());
    let items = vec!["a".to_string(), "b".to_string()];
    assert_eq!(parse_list(&render_list(&items)), items);
    assert_eq!(render_list(&[]), "");
}

#[test]
fn fields_round_trip_with_empty_values() {
    let fields = vec![
        ("Branch".to_string(), "feat/x".to_string()),
        ("Commit".to_string(), String::new()),
    ];
    let text = render_fields(&fields);
    assert_eq!(text, "Branch: feat/x\nCommit:");
    assert_eq!(parse_fields(&text), fields);
}

#[test]
fn demote_headings_skips_code() {
    assert_eq!(
        demote_headings("## A\n```\n# x\n```\n", 1),
        "### A\n```\n# x\n```\n"
    );
    assert_eq!(
        demote_headings("###### deep\n#tag\n", 2),
        "###### deep\n#tag\n"
    );
    assert_eq!(demote_headings("# A\ntext", 1), "## A\ntext");
}

#[test]
fn md_parse_keeps_field_lines_inside_code_in_the_preamble() {
    let doc = MdDoc::parse("# T\n\n```\nKey: v\n```\n").unwrap();
    assert!(doc.fields.is_empty());
    assert_eq!(doc.preamble, "```\nKey: v\n```");
}

#[test]
fn md_bare_hash_title_and_heading_are_empty() {
    let doc = MdDoc::parse("#\n\n##\n\nx\n").unwrap();
    assert_eq!(doc.title, "");
    assert_eq!(doc.sections[0].heading, "");
    assert_eq!(doc.render(), "#\n\n## \n\nx\n");
}

#[test]
fn md_demote_caps_at_six_levels() {
    assert_eq!(demote_headings("## A", usize::MAX), "###### A");
}

#[test]
fn parsed_document_reads_back_after_rendering() {
    let text = "\n\n#   Title  \nKey:   value  \nintro line\n```\n## not a heading\n```\n\n\n##  First  \n\n\nbody line\n\n## Second\n";
    let doc = MdDoc::parse(text).unwrap();
    assert_eq!(MdDoc::parse(&doc.render()).unwrap(), doc);
    assert_eq!(doc.title, "Title");
    assert_eq!(doc.preamble, "intro line\n```\n## not a heading\n```");
}

#[test]
fn unclosed_fence_in_the_last_section_reads_back() {
    let doc = MdDoc::parse("# T\n## A\n\n```\n## x\n").unwrap();
    assert_eq!(doc.sections.len(), 1);
    assert_eq!(doc.sections[0].body, "```\n## x");
    assert_eq!(MdDoc::parse(&doc.render()).unwrap(), doc);
}
