//! Location of the local state (outside of the project directory).
//!
//! ```text
//! <root>/
//!   index.json
//!   tmp/
//!   projects/<project-id>/
//!     context-repo/
//!     context-repo.lock
//!     local.json
//!     conflict.json
//!     workers/<worktree-key>.json
//! ```
//!
//! Paths are `/`-separated text; resolving and canonicalizing them happens
//! outside the library.

use sha2::{Digest, Sha256};
use vstd::prelude::*;
use vstd::string::StringSliceAdditionalSpecFns;

use crate::ids::{hex_digit, hyphenated, uuid_hyphenated};
use crate::text::{chars_of, ends_with, string_of};

verus! {

/// Environment variable that overrides the state root.
pub const HOME_ENV: &'static str = "CTX_SYNC_HOME";

/// `dir` joined with the relative name `name`.
pub open spec fn join_path(dir: Seq<char>, name: Seq<char>) -> Seq<char> {
    if dir.len() == 0 {
        name
    } else if dir.last() == '/' {
        dir + name
    } else {
        dir + seq!['/'] + name
    }
}

fn join(dir: &str, name: &str) -> (r: String)
    ensures
        r@ == join_path(dir@, name@),
{
    let d = chars_of(dir);
    let mut r = String::from_str(dir);
    if d.len() > 0 && d[d.len() - 1] != '/' {
        crate::text::push_char(&mut r, '/');
    }
    r.append(name);
    proof {
        if d.len() == 0 {
            assert(r@ =~= name@);
        }
    }
    r
}

/// Root directory of the local state.
#[derive(Debug, Clone, PartialEq, Eq)]
pub struct StateRoot {
    root: String,
}

/// Local state of one project.
#[derive(Debug, Clone, PartialEq, Eq)]
pub struct ProjectState {
    dir: String,
}

impl StateRoot {
    pub closed spec fn root_view(&self) -> Seq<char> {
        self.root@
    }

    pub fn new(root: &str) -> (r: StateRoot)
        ensures
            r.root_view() == root@,
    {
        StateRoot { root: String::from_str(root) }
    }

    pub fn root(&self) -> (r: &str)
        ensures
            r@ == self.root_view(),
    {
        self.root.as_str()
    }

    pub fn index_path(&self) -> (r: String)
        ensures
            r@ == join_path(self.root_view(), "index.json"@),
    {
        join(self.root.as_str(), "index.json")
    }

    pub fn tmp_dir(&self) -> (r: String)
        ensures
            r@ == join_path(self.root_view(), "tmp"@),
    {
        join(self.root.as_str(), "tmp")
    }

    /// `<root>/projects/<hyphenated project id>`.
    pub fn project(&self, project_id: u128) -> (p: ProjectState)
        ensures
            p.dir_view() == join_path(join_path(self.root_view(), "projects"@), uuid_hyphenated(project_id)),
    {
        let projects = join(self.root.as_str(), "projects");
        let id = hyphenated(project_id);
        ProjectState { dir: join(projects.as_str(), id.as_str()) }
    }
}

impl ProjectState {
    pub closed spec fn dir_view(&self) -> Seq<char> {
        self.dir@
    }

    pub fn dir(&self) -> (r: &str)
        ensures
            r@ == self.dir_view(),
    {
        self.dir.as_str()
    }

    /// Clone of the context Gist.
    pub fn context_repo(&self) -> (r: String)
        ensures
            r@ == join_path(self.dir_view(), "context-repo"@),
    {
        join(self.dir.as_str(), "context-repo")
    }

    pub fn local_json(&self) -> (r: String)
        ensures
            r@ == join_path(self.dir_view(), "local.json"@),
    {
        join(self.dir.as_str(), "local.json")
    }

    pub fn conflict_json(&self) -> (r: String)
        ensures
            r@ == join_path(self.dir_view(), "conflict.json"@),
    {
        join(self.dir.as_str(), "conflict.json")
    }

    pub fn lock_path(&self) -> (r: String)
        ensures
            r@ == join_path(self.dir_view(), "context-repo.lock"@),
    {
        join(self.dir.as_str(), "context-repo.lock")
    }

    pub fn workers_dir(&self) -> (r: String)
        ensures
            r@ == join_path(self.dir_view(), "workers"@),
    {
        join(self.dir.as_str(), "workers")
    }

    /// Worker identity file of the worktree with the given key.
    ///
    /// Identities are per worktree so that several agents running on the
    /// same machine do not share one identity.
    pub fn worker_json(&self, worktree_key: &str) -> (r: String)
        ensures
            r@ == join_path(join_path(self.dir_view(), "workers"@), worktree_key@ + ".json"@),
    {
        let dir = self.workers_dir();
        let mut name = String::from_str(worktree_key);
        name.append(".json");
        join(dir.as_str(), name.as_str())
    }
}

/// What `Sha256::digest` gives for `data`.
pub uninterp spec fn sha256(data: Seq<u8>) -> Seq<u8>;

/// `Sha256::digest`: the 32-byte SHA-256 digest of `data`.
#[verifier::external_body]
fn sha256_digest(data: &[u8]) -> (r: Vec<u8>)
    ensures
        r@ == sha256(data@),
        r@.len() == 32,
{
    Sha256::digest(data).to_vec()
}

/// A byte as two lowercase hexadecimal digits.
pub open spec fn hex_byte(b: u8) -> Seq<char> {
    seq![hex_digit((b / 16) as int), hex_digit((b % 16) as int)]
}

/// The first `n` bytes in hexadecimal.
pub open spec fn hex_prefix(bytes: Seq<u8>, n: int) -> Seq<char>
    decreases n,
{
    if n <= 0 {
        Seq::empty()
    } else {
        hex_prefix(bytes, n - 1) + hex_byte(bytes[n - 1])
    }
}

fn hex_char(n: u8) -> (c: char)
    requires
        n < 16,
    ensures
        c == hex_digit(n as int),
{
    if n < 10 {
        ((48 + n) as char)
    } else {
        ((87 + n) as char)
    }
}

/// First 16 lowercase hex characters of the SHA-256 of the canonical path's
/// text (given here as `canonical`).
pub fn worktree_key_of(canonical: &str) -> (r: String)
    ensures
        r@ == hex_prefix(sha256(canonical.spec_bytes()), 8),
{
    let digest = sha256_digest(canonical.as_bytes());
    let mut out: Vec<char> = Vec::new();
    let mut i: usize = 0;
    while i < 8
        invariant
            i <= 8,
            digest@.len() == 32,
            out@ == hex_prefix(digest@, i as int),
        decreases 8 - i,
    {
        let b = digest[i];
        out.push(hex_char(b / 16));
        out.push(hex_char(b % 16));
        assert(out@ =~= hex_prefix(digest@, i + 1));
        i = i + 1;
    }
    string_of(&out)
}

} // verus!
