use ctx_sync_core::model::claim::{literal_prefix, overlaps, validate_pattern};
use ctx_sync_core::Error;

#[test]
fn matching_respects_components_and_double_star() {
    for (pattern, path, expected) in [
        ("src/**", "src/a/b.rs", true),
        ("src/*.rs", "src/a.rs", true),
        ("src/*.rs", "src/a/b.rs", false),
        ("src/?.rs", "src/a.rs", true),
        ("**", "x", true),
        ("src/**/mod.rs", "src/mod.rs", true),
        ("src/**/mod.rs", "src/a/b/mod.rs", true),
        ("src/par", "src/parser.rs", false),
        ("docs/", "docs", true),
    ] {
        assert_eq!(ctx_sync_core::model::claim::matches(pattern, path), expected, "{pattern} vs {path}");
    }
}

#[test]
fn literal_prefix_stops_before_wildcards() {
    assert_eq!(literal_prefix("src/parser/**"), "src/parser");
    assert_eq!(literal_prefix("*.md"), "");
    assert_eq!(literal_prefix("crates/*/Cargo.toml"), "crates");
}

#[test]
fn overlap_uses_matches_and_component_prefixes() {
    for (a, b, expected) in [
        ("src/parser/**", "src/parser/lexer.rs", true),
        ("src/parser/**", "src/ui/**", false),
        ("src/**", "src/ui/**", true),
        ("src/par*", "src/parser/**", true),
        ("docs/*.md", "src/*.rs", false),
    ] {
        assert_eq!(overlaps(a, b), expected, "{a} vs {b}");
    }
}

#[test]
fn validation_rejects_unsafe_or_malformed_patterns() {
    for pattern in ["", "/abs", "../x", "a/../b", "a\\b", " x"] {
        assert!(matches!(
            validate_pattern(pattern),
            Err(Error::InvalidConfig(_))
        ));
    }
    assert!(validate_pattern("src/**").is_ok());
}

#[test]
fn overlap_is_symmetric_on_examples() {
    for (a, b) in [
        ("src/parser/**", "src/parser/lexer.rs"),
        ("src/**", "src/ui/**"),
        ("docs/*.md", "src/*.rs"),
    ] {
        assert_eq!(overlaps(a, b), overlaps(b, a), "{a} vs {b}");
    }
}

#[test]
fn a_pattern_matches_itself_when_literal() {
    assert!(ctx_sync_core::model::claim::matches("src/a.rs", "src/a.rs"));
    assert!(!ctx_sync_core::model::claim::matches("src/a.rs", "src/b.rs"));
}
