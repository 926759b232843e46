use ctx_sync_core::state::worker::validate_worker_name;

#[test]
fn accepts_valid_names() {
    for name in ["parser", "sandbox-1", "a.b_c", "A", &"x".repeat(64)] {
        assert!(validate_worker_name(name).is_ok(), "{name}");
    }
}

#[test]
fn rejects_invalid_names() {
    for name in ["", "-x", ".x", "a b", &"x".repeat(65), "日本語", "a/b"] {
        let err = validate_worker_name(name).unwrap_err();
        assert_eq!(err.exit_code(), 4, "{name}");
    }
}
