//! The context store backed by a GitHub Gist, operated with the `git`
//! command outside the library.

use vstd::prelude::*;

use super::remote::RemoteSpec;
use crate::error::Error;
use crate::git::GitOutput;
use crate::state::ProjectState;
use crate::state::paths::join_path;
use crate::text::{chars_of, debug_str, has_char, spec_debug_str, trim, trim_vec, vec_has_char};

verus! {

/// Identity used for context commits when git has none configured
/// (common in fresh sandboxes).
pub const FALLBACK_NAME: &'static str = "user.name=ctx-sync";

pub const FALLBACK_EMAIL: &'static str = "user.email=ctx-sync@localhost";

pub struct GistStore {
    repo_dir: String,
    lock_path: String,
    conflict_path: String,
    remote: RemoteSpec,
    git_env: Vec<(String, String)>,
}

impl GistStore {
    pub closed spec fn repo_dir_view(&self) -> Seq<char> {
        self.repo_dir@
    }

    pub closed spec fn lock_path_view(&self) -> Seq<char> {
        self.lock_path@
    }

    pub closed spec fn conflict_path_view(&self) -> Seq<char> {
        self.conflict_path@
    }

    pub closed spec fn remote_view(&self) -> RemoteSpec {
        self.remote
    }

    /// Extra environment variables for git, as text pairs.
    pub closed spec fn env_view(&self) -> Seq<(Seq<char>, Seq<char>)> {
        self.git_env@.map_values(|p: (String, String)| (p.0@, p.1@))
    }

    pub fn new(state: &ProjectState, remote: RemoteSpec) -> (s: GistStore)
        ensures
            s.repo_dir_view() == join_path(state.dir_view(), "context-repo"@),
            s.lock_path_view() == join_path(state.dir_view(), "context-repo.lock"@),
            s.conflict_path_view() == join_path(state.dir_view(), "conflict.json"@),
            s.remote_view() == remote,
            s.env_view().len() == 0,
    {
        GistStore {
            repo_dir: state.context_repo(),
            lock_path: state.lock_path(),
            conflict_path: state.conflict_json(),
            remote,
            git_env: Vec::new(),
        }
    }

    /// Extra environment for every git child process (used by tests).
    pub fn with_git_env(self, env: Vec<(String, String)>) -> (s: GistStore)
        ensures
            s.repo_dir_view() == self.repo_dir_view(),
            s.lock_path_view() == self.lock_path_view(),
            s.conflict_path_view() == self.conflict_path_view(),
            s.remote_view() == self.remote_view(),
            s.env_view() == env@.map_values(|p: (String, String)| (p.0@, p.1@)),
    {
        GistStore { git_env: env, ..self }
    }

    pub fn remote(&self) -> (r: &RemoteSpec)
        ensures
            *r == self.remote_view(),
    {
        &self.remote
    }

    pub fn repo_dir(&self) -> (r: &str)
        ensures
            r@ == self.repo_dir_view(),
    {
        self.repo_dir.as_str()
    }

    pub fn lock_path(&self) -> (r: &str)
        ensures
            r@ == self.lock_path_view(),
    {
        self.lock_path.as_str()
    }

    pub fn conflict_path(&self) -> (r: &str)
        ensures
            r@ == self.conflict_path_view(),
    {
        self.conflict_path.as_str()
    }

    pub fn git_env(&self) -> (r: &Vec<(String, String)>)
        ensures
            r@.map_values(|p: (String, String)| (p.0@, p.1@)) == self.env_view(),
    {
        &self.git_env
    }
}

/// A context file is a plain name inside the repository.
pub open spec fn valid_context_name(name: Seq<char>) -> bool {
    !(name.len() == 0 || has_char(name, '/') || has_char(name, '\\') || name[0] == '.')
}

/// Rejects names that are not a plain file inside the repository.
pub fn check_name(name: &str) -> (r: Result<(), Error>)
    ensures
        match r {
            Ok(()) => valid_context_name(name@),
            Err(e) => !valid_context_name(name@) && (e matches Error::General(m) && m@
                == "invalid context file name: "@ + spec_debug_str(name@)),
        },
{
    let v = chars_of(name);
    let invalid = v.len() == 0 || vec_has_char(&v, '/') || vec_has_char(&v, '\\') || v[0] == '.';
    if invalid {
        let mut m = String::new();
        m.append("invalid context file name: ");
        let d = debug_str(name);
        m.append(d.as_str());
        Err(Error::General(m))
    } else {
        Ok(())
    }
}

/// Whether `git config <key>` gave no usable value.
pub open spec fn lacks_value(out: GitOutput) -> bool {
    !out.success || trim(out.stdout@).len() == 0
}

/// `-c user.name=... -c user.email=...` for the parts git has no value for,
/// given the output of `git config user.name` and `git config user.email`.
pub fn identity_args(name: &GitOutput, email: &GitOutput) -> (r: Vec<&'static str>)
    ensures
        r@.map_values(|a: &str| a@) == (if lacks_value(*name) {
            seq!["-c"@, "user.name=ctx-sync"@]
        } else {
            Seq::empty()
        }) + (if lacks_value(*email) {
            seq!["-c"@, "user.email=ctx-sync@localhost"@]
        } else {
            Seq::empty()
        }),
{
    let mut args: Vec<&'static str> = Vec::new();
    if !name.success || trim_vec(&chars_of(name.stdout.as_str())).len() == 0 {
        args.push("-c");
        args.push(FALLBACK_NAME);
    }
    let ghost first = args@;
    if !email.success || trim_vec(&chars_of(email.stdout.as_str())).len() == 0 {
        args.push("-c");
        args.push(FALLBACK_EMAIL);
    }
    assert(args@.map_values(|a: &str| a@) =~= (if lacks_value(*name) {
        seq!["-c"@, "user.name=ctx-sync"@]
    } else {
        Seq::empty()
    }) + (if lacks_value(*email) {
        seq!["-c"@, "user.email=ctx-sync@localhost"@]
    } else {
        Seq::empty()
    }));
    args
}

/// How a conflicted rebase is resolved.
#[derive(Debug, Clone, Copy, PartialEq, Eq, Structural)]
pub enum RebaseStrategy {
    /// In a rebase, `theirs` refers to the local commit being replayed.
    KeepLocal,
    /// In a rebase, `ours` refers to the fetched remote branch.
    KeepRemote,
}

impl RebaseStrategy {
    /// The `-X` option of `git rebase`.
    pub fn preference(&self) -> (r: &'static str)
        ensures
            r@ == (match *self {
                RebaseStrategy::KeepLocal => "theirs"@,
                RebaseStrategy::KeepRemote => "ours"@,
            }),
    {
        match self {
            RebaseStrategy::KeepLocal => "theirs",
            RebaseStrategy::KeepRemote => "ours",
        }
    }
}

} // verus!
