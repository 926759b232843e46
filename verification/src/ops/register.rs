//! `register`: register this worktree as a worker and create its worker file.
//!
//! The identity is saved in the local state, never in the project
//! repository; saving it and writing the worker file happen outside the
//! library.

use vstd::prelude::*;

use crate::clock::Timestamp;
use crate::model::decision::opt_view;
use crate::model::worker::{fresh_worker, worker_file_name, Worker, WorkerStatus, WorkerView};
use crate::repo_info::RepoInfo;
use crate::state::worker::WorkerIdentity;

verus! {

#[derive(Debug, Clone)]
pub struct RegisterOutcome {
    pub identity: WorkerIdentity,
    /// `false` when the worktree was already registered.
    pub created: bool,
    pub file_name: String,
    pub committed: Option<String>,
}

/// A new registration happens when there is no identity yet, or when one
/// is replaced on purpose.
pub fn registration_needed(registered: bool, force: bool) -> (r: bool)
    ensures
        r == (!registered || force),
{
    !registered || force
}

/// The outcome for a worktree that is registered already.
pub fn already_registered(identity: WorkerIdentity) -> (r: RegisterOutcome)
    ensures
        r.file_name@ == worker_file_name(identity.id),
        r.identity == identity,
        !r.created,
        r.committed is None,
{
    RegisterOutcome { file_name: Worker::file_name_for(identity.id), identity, created: false, committed: None }
}

/// The worker file of a replaced identity: abandoned now.
pub fn abandon_worker(worker: Worker, now: Timestamp) -> (r: Worker)
    ensures
        r@ == (WorkerView { status: WorkerStatus::Abandoned, last_updated: now, ..worker@ }),
{
    let mut w = worker;
    w.status = WorkerStatus::Abandoned;
    w.last_updated = now;
    w
}

/// The worker file of a new registration: nothing recorded yet but the
/// branch and commit of the project repository.
pub fn registered_worker(id: u128, name: &str, repo: RepoInfo, now: Timestamp) -> (r: Worker)
    ensures
        r@ == (WorkerView {
            branch: opt_view(repo.branch),
            commit: opt_view(repo.commit),
            ..fresh_worker(id, name@, now)
        }),
{
    let mut w = Worker::new(id, name, now);
    w.branch = repo.branch;
    w.commit = repo.commit;
    w
}

/// `ctx-sync: register <name>`.
pub fn register_commit_message(name: &str) -> (r: String)
    ensures
        r@ == "ctx-sync: register "@ + name@,
{
    let mut s = String::new();
    s.append("ctx-sync: register ");
    s.append(name);
    s
}

} // verus!
