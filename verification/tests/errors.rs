use ctx_sync_core::gh::parse_gist_create_output;
use ctx_sync_core::gist_id::parse_gist_id;
use ctx_sync_core::Error;

#[test]
fn exit_codes_are_stable() {
    let cases = [
        (Error::General("x".into()), 1),
        (Error::Io(std::io::Error::other("x")), 1),
        (Error::ContextConflict { files: vec![] }, 2),
        (Error::Auth("x".into()), 3),
        (Error::InvalidConfig("x".into()), 4),
        (Error::Remote("x".into()), 5),
        (Error::SyncRetryExceeded, 5),
    ];
    for (err, code) in cases {
        assert_eq!(err.exit_code(), code, "{err:?}");
    }
}

#[test]
fn context_conflict_message_lists_files() {
    let err = Error::ContextConflict {
        files: vec!["20-architecture.md".into()],
    };
    assert_eq!(err.message(), "Context conflict detected:\n\n20-architecture.md");
}

#[test]
fn context_conflict_message_lists_multiple_files() {
    let err = Error::ContextConflict {
        files: vec!["10-project.md".into(), "20-architecture.md".into()],
    };
    assert_eq!(
        err.message(),
        "Context conflict detected:\n\n10-project.md\n20-architecture.md"
    );
}

#[test]
fn error_messages_carry_their_prefix() {
    assert_eq!(Error::General("x".into()).message(), "x");
    assert_eq!(Error::Auth("x".into()).message(), "authentication error: x");
    assert_eq!(
        Error::InvalidConfig("x".into()).message(),
        "invalid configuration: x"
    );
    assert_eq!(Error::Remote("x".into()).message(), "remote error: x");
    assert_eq!(
        Error::SyncRetryExceeded.message(),
        "sync failed: retry limit exceeded"
    );
    assert!(Error::Io(std::io::Error::other("boom"))
        .message()
        .starts_with("io error: "));
}

#[test]
fn parses_url_only_output() {
    assert_eq!(
        parse_gist_create_output("https://gist.github.com/ieee0824/abc123\n").unwrap(),
        "abc123"
    );
}

#[test]
fn parses_output_with_status_lines() {
    let out =
        "- Creating gist...\n✓ Created secret gist\nhttps://gist.github.com/ieee0824/abc123\n";
    assert_eq!(parse_gist_create_output(out).unwrap(), "abc123");
}

#[test]
fn empty_output_is_an_error() {
    let err = parse_gist_create_output("").unwrap_err();
    assert_eq!(err.exit_code(), 5, "{err:?}");
}

#[test]
fn gist_output_without_a_url_is_a_remote_error() {
    let err = parse_gist_create_output("created\n").unwrap_err();
    assert_eq!(err.message(), "remote error: gist URL not found in gh output: \"created\\n\"");
}

#[test]
fn gist_output_uses_the_last_url_line() {
    let out = "https://gist.github.com/u/aaaa1111\n  https://gist.github.com/u/bbbb2222  \n";
    assert_eq!(parse_gist_create_output(out).unwrap(), "bbbb2222");
    let err = parse_gist_create_output("https://github.com/x/y\n").unwrap_err();
    assert_eq!(err.exit_code(), 4, "{err:?}");
}

#[test]
fn accepts_ids_and_urls() {
    let inputs = [
        "0123abcd",
        "  0123abcd\n",
        "https://gist.github.com/user/0123abcd",
        "https://gist.github.com/0123abcd",
        "https://gist.github.com/user/0123abcd/",
        "https://gist.github.com/user/0123abcd.git",
        "https://gist.github.com/user/0123abcd#file-x",
        "https://gist.github.com/user/0123abcd?a=b",
        "https://gist.github.com/0123abcd/",
        "https://gist.github.com/0123abcd.git",
        "https://gist.github.com/0123abcd#file-x",
        "https://gist.github.com/0123abcd?a=b",
        "git@gist.github.com:0123abcd.git",
    ];
    for input in inputs {
        assert_eq!(parse_gist_id(input).unwrap(), "0123abcd", "{input:?}");
    }
}

#[test]
fn accepts_full_length_id() {
    let id = "0123456789abcdef0123456789abcdef";
    assert_eq!(parse_gist_id(id).unwrap(), id);
}

#[test]
fn rejects_invalid_input() {
    let inputs = [
        "",
        "   ",
        "https://github.com/user/repo",
        "abc/def",
        "0123-abcd",
        "https://gist.github.com/",
        "ftp://gist.github.com/0123abcd",
    ];
    for input in inputs {
        let err = parse_gist_id(input).unwrap_err();
        assert_eq!(err.exit_code(), 4, "{input:?}: {err:?}");
    }
}
