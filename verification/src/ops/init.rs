//! `init`: create a new ctx-sync project.
//!
//! project id → initial context → Gist → `.ctx-sync.toml` → local state.
//! Creating the Gist, writing files and saving state happen outside the
//! library; the checks, the initial files and the messages are here.

use vstd::prelude::*;

use crate::error::Error;
use crate::model::docs::{initial_architecture_md, initial_project_md};
use crate::state::local::Protocol;
use crate::text::{chars_of, string_of, trim, trim_vec};

verus! {

pub enum InitRemote {
    /// A Gist created by hand (it must not contain a ctx-sync context yet).
    ExistingGist { gist_id: String },
    /// Create a new Gist with `gh gist create`.
    CreateGist { public: bool },
}

#[derive(Debug, Clone)]
pub struct InitOutcome {
    pub project_id: u128,
    pub project_name: String,
    pub gist_id: String,
    pub config_path: String,
    pub revision: String,
    /// Follow-up advice for the user (e.g. how to enable pushing).
    pub hints: Vec<String>,
}

/// The trimmed project name. A blank name is refused, and so is an existing
/// `.ctx-sync.toml` unless it is to be overwritten.
pub fn init_project_name(name: &str, config_exists: bool, force: bool) -> (r: Result<String, Error>)
    ensures
        trim(name@).len() == 0 ==> (r matches Err(Error::InvalidConfig(m)) && m@ == "project name is empty"@),
        trim(name@).len() > 0 && config_exists && !force ==> (r matches Err(Error::InvalidConfig(m)) && m@
            == ".ctx-sync.toml already exists; use --force to overwrite"@),
        trim(name@).len() > 0 && !(config_exists && !force) ==> (r matches Ok(n) && n@ == trim(name@)),
{
    let t = trim_vec(&chars_of(name));
    if t.len() == 0 {
        return Err(Error::InvalidConfig(String::from_str("project name is empty")));
    }
    if config_exists && !force {
        return Err(Error::InvalidConfig(String::from_str(
            ".ctx-sync.toml already exists; use --force to overwrite",
        )));
    }
    Ok(string_of(&t))
}

/// The Gist given by hand already holds a context.
pub fn existing_context_error(gist_id: &str) -> (e: Error)
    ensures
        e matches Error::InvalidConfig(m) && m@ == "gist "@ + gist_id@
            + " already contains a ctx-sync context; use `ctx-sync attach "@ + gist_id@ + "`"@,
{
    let mut m = String::new();
    m.append("gist ");
    m.append(gist_id);
    m.append(" already contains a ctx-sync context; use `ctx-sync attach ");
    m.append(gist_id);
    m.append("`");
    Error::InvalidConfig(m)
}

/// `gh` is not installed.
pub fn gh_missing_error() -> (e: Error)
    ensures
        e matches Error::InvalidConfig(m) && m@
            == "gh command not found; create a gist manually and run `ctx-sync init --gist-id <id>`"@,
{
    Error::InvalidConfig(String::from_str(
        "gh command not found; create a gist manually and run `ctx-sync init --gist-id <id>`",
    ))
}

/// `gh` is not logged in.
pub fn gh_unauthenticated_error() -> (e: Error)
    ensures
        e matches Error::Auth(m) && m@ == "gh is not authenticated; run `gh auth login`"@,
{
    Error::Auth(String::from_str("gh is not authenticated; run `gh auth login`"))
}

/// The initial files besides `00-meta.json`: the project and architecture
/// documents, with their names.
pub fn initial_documents(name: &str) -> (r: Vec<(String, String)>)
    ensures
        r@.len() == 2,
        r@[0].0@ == "10-project.md"@,
        r@[0].1@ == "# Project\n\n## Goal\n\nTBD: describe the goal of "@ + name@
            + " in 1-3 lines.\n\n## Non Goals\n\n- TBD\n\n## Tech Stack\n\n- TBD\n"@,
        r@[1].0@ == "20-architecture.md"@,
        r@[1].1@ == "# Architecture\n\n## Components\n\nTBD\n\n## Rules\n\n- Each worker owns its own `40-worker-*.md` file. Do not edit other workers' files.\n- Decisions are append-only. Add a new decision with `Supersedes:` instead of editing an old one.\n- Shared files are synchronized with Git optimistic concurrency. Conflicts are never resolved automatically.\n"@,
{
    let mut v: Vec<(String, String)> = Vec::new();
    v.push((String::from_str(crate::model::docs::PROJECT_FILE), initial_project_md(name)));
    v.push((String::from_str(crate::model::docs::ARCHITECTURE_FILE), initial_architecture_md()));
    proof {
        reveal_strlit("10-project.md");
        reveal_strlit("20-architecture.md");
    }
    v
}

/// `ctx-sync: init <name>`, the first commit of a hand-made Gist.
pub fn init_commit_message(name: &str) -> (r: String)
    ensures
        r@ == "ctx-sync: init "@ + name@,
{
    let mut s = String::new();
    s.append("ctx-sync: init ");
    s.append(name);
    s
}

/// `ctx-sync: <name>`, the description of a Gist created with `gh`.
pub fn gist_description(name: &str) -> (r: String)
    ensures
        r@ == "ctx-sync: "@ + name@,
{
    let mut s = String::new();
    s.append("ctx-sync: ");
    s.append(name);
    s
}

/// Advice after creating a Gist with `gh`: pushing over https needs the
/// git credential helper of `gh`.
pub fn init_hints(protocol: Protocol) -> (r: Vec<String>)
    ensures
        protocol == Protocol::Https ==> r@.len() == 1 && r@[0]@
            == "to push over https, run `gh auth setup-git` once (or use --ssh)"@,
        protocol == Protocol::Ssh ==> r@.len() == 0,
{
    let mut v: Vec<String> = Vec::new();
    if let Protocol::Https = protocol {
        v.push(String::from_str("to push over https, run `gh auth setup-git` once (or use --ssh)"));
    }
    v
}

} // verus!
