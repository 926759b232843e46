use ctx_sync_core::config::{ContextFiles, ProjectConfig};
use ctx_sync_core::Error;

/// The configuration `version = 1`, a Gist remote with ID `abc` and the
/// default context files, as read from `.ctx-sync.toml`.
fn minimal() -> ProjectConfig {
    ProjectConfig::new_gist("abc")
}

fn assert_invalid(config: &ProjectConfig) {
    let err = config.validate().unwrap_err();
    assert!(matches!(err, Error::InvalidConfig(_)), "{config:?}: {err:?}");
}

#[test]
fn context_section_is_optional() {
    let config = minimal();
    assert!(config.validate().is_ok());
    let defaults = ContextFiles::default();
    assert_eq!(defaults.project, "10-project.md");
    assert_eq!(defaults.architecture, "20-architecture.md");
    assert_eq!(config.context, defaults);
}

#[test]
fn rejects_unsupported_version() {
    let mut config = minimal();
    config.version = 2;
    assert_invalid(&config);
    match config.validate() {
        Err(Error::InvalidConfig(m)) => {
            assert_eq!(m, "unsupported .ctx-sync.toml version 2 (expected 1)")
        }
        other => panic!("unexpected {other:?}"),
    }
}

#[test]
fn rejects_empty_remote_id() {
    let mut config = minimal();
    config.remote.id = String::new();
    assert_invalid(&config);
    config.remote.id = "  ".to_string();
    assert_invalid(&config);
}

#[test]
fn rejects_custom_context_files() {
    let mut config = minimal();
    config.context.project = "p.md".to_string();
    assert_invalid(&config);
    match config.validate() {
        Err(Error::InvalidConfig(m)) => {
            assert_eq!(m, "custom context file names are not supported in v0.1")
        }
        other => panic!("unexpected {other:?}"),
    }
}
