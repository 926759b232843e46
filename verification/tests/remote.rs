use ctx_sync_core::ops::runtime::Runtime;
use ctx_sync_core::state::paths::StateRoot;
use ctx_sync_core::state::local::Protocol;
use ctx_sync_core::store::remote::RemoteSpec;

fn runtime(url_override: Option<&str>) -> Runtime {
    Runtime {
        state_root: StateRoot::new("/state"),
        remote_url_override: url_override.map(str::to_string),
        git_env: vec![("K".into(), "V".into())],
    }
}

#[test]
fn remote_spec_applies_the_override() {
    assert_eq!(
        runtime(None).remote_spec("abc", Protocol::Https).url(),
        "https://gist.github.com/abc.git"
    );
    assert_eq!(
        runtime(Some("/tmp/remote.git"))
            .remote_spec("abc", Protocol::Https)
            .url(),
        "/tmp/remote.git"
    );
}

#[test]
fn gist_store_uses_the_project_state() {
    let rt = runtime(Some("/tmp/remote.git"));
    let state = rt.state_root.project(0);
    let store = rt.gist_store(&state, "abc", Protocol::Ssh);
    assert_eq!(store.repo_dir(), state.context_repo());
    assert_eq!(store.remote().url(), "/tmp/remote.git");
    assert_eq!(store.remote().gist_id, "abc");
    assert_eq!(store.git_env(), &vec![("K".to_string(), "V".to_string())]);
}

#[test]
fn https_url() {
    assert_eq!(
        RemoteSpec::new("abc", Protocol::Https).url(),
        "https://gist.github.com/abc.git"
    );
}

#[test]
fn ssh_url() {
    assert_eq!(
        RemoteSpec::new("abc", Protocol::Ssh).url(),
        "git@gist.github.com:abc.git"
    );
}

#[test]
fn override_wins() {
    let spec =
        RemoteSpec::new("abc", Protocol::Ssh).with_url_override(Some("/tmp/remote.git".into()));
    assert_eq!(spec.url(), "/tmp/remote.git");
    assert_eq!(
        spec.with_url_override(None).url(),
        "git@gist.github.com:abc.git"
    );
}

#[test]
fn protocol_names_are_lowercase() {
    assert_eq!(Protocol::Https.as_str(), "https");
    assert_eq!(Protocol::Ssh.as_str(), "ssh");
}
