use ctx_sync_core::secrets::{scan, warning_message, SecretFinding};

fn kinds(text: &str) -> Vec<&'static str> {
    scan("f", text).into_iter().map(|f| f.kind).collect()
}

/// Fake credentials are assembled at run time so that the source text does
/// not look like it holds one.
fn fake(parts: &[&str]) -> String {
    parts.concat()
}

#[test]
fn detects_each_pattern() {
    let cases = [
        (fake(&["key sk-", "abcdefghijklmnopqrstuvwx"]), "openai-api-key"),
        (fake(&["sk-", "proj-abc_def-ghi_jkl-mno_pqr"]), "openai-api-key"),
        (fake(&["see ghp_", "0123456789abcdefghij0123"]), "github-token"),
        (fake(&["gho_", "0123456789ABCDEFGHIJ"]), "github-token"),
        (fake(&["github_pat_", "11ABCDEFG0123456789_abcdefghij"]), "github-pat"),
        (fake(&["AKIA", "IOSFODNN7EXAMPLE"]), "aws-access-key"),
        (fake(&["id=", "AKIA", "IOSFODNN7EXAMPLE", "."]), "aws-access-key"),
        (fake(&["xoxb", "-123-456-abc"]), "slack-token"),
        (
            fake(&["-----BEGIN OPENSSH ", "PRIVATE KEY", "-----\nabc"]),
            "private-key",
        ),
        (fake(&["-----BEGIN RSA ", "PRIVATE KEY", "-----"]), "private-key"),
    ];
    for (text, kind) in cases {
        assert_eq!(kinds(&text), [kind], "{text}");
    }
}

#[test]
fn ignores_look_alikes() {
    for text in [
        fake(&["task-skills are important"]),
        fake(&["sk-", "short"]),
        fake(&["AKIA", "123"]),
        fake(&["AKIA", "IOSFODNN7EXAMPLEXYZ"]),
        fake(&["askghp_", "0123456789abcdefghij0123"]),
        fake(&["ghp_", "short"]),
        fake(&["xoxb"]),
        fake(&["-----BEGIN ", "CERTIFICATE", "-----"]),
        fake(&["plain text"]),
    ] {
        assert!(kinds(&text).is_empty(), "{text}");
    }
}

#[test]
fn reports_each_kind_once_with_the_field() {
    let text = fake(&[
        "ghp_",
        "0123456789abcdefghij0123 and ghp_",
        "abcdefghij0123456789abcd",
    ]);
    let findings = scan("attention[0]", &text);
    assert_eq!(
        findings,
        [SecretFinding {
            kind: "github-token",
            field: "attention[0]".into()
        }]
    );
}

#[test]
fn warning_does_not_contain_the_value() {
    let text = fake(&["ghp_", "0123456789abcdefghij0123"]);
    let message = warning_message(&scan("summary", &text)[0]);
    assert_eq!(
        message,
        "possible credential (github-token) in summary; do not put secrets into ctx-sync context"
    );
    assert!(!message.contains("ghp_0123"));
}

#[test]
fn several_kinds_come_in_rule_order() {
    let text = fake(&["AKIA", "IOSFODNN7EXAMPLE ", "ghp_", "0123456789abcdefghij0123"]);
    assert_eq!(kinds(&text), ["github-token", "aws-access-key"]);
}
