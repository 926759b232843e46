//! The decisions of an agent's work session (`agent start`).
//!
//! Finding the project, attaching, registering, pulling and reading the
//! context happen outside the library; what they lead to is decided here.

use vstd::prelude::*;

use crate::error::Error;
use crate::model::decision::{copy_decision, Decision, DecisionView};
use crate::model::snapshot::ContextSnapshot;
use crate::model::worker::{copy_worker, worker_status_name, Worker, WorkerStatus, WorkerView};
use crate::ops::claim::workers_view;
use crate::order::{lemma_multiset_map, sort_by_key, sorted_by_key};
use crate::text::{chars_of, join, join_strings, starts_with, sv, vec_starts_with};

verus! {

/// The message of the error that `agent start` answers by attaching.
pub open spec fn not_attached(e: Error) -> bool {
    e matches Error::InvalidConfig(m) && starts_with(m@, "this machine is not attached to gist "@)
}

/// Whether opening the workspace failed only because this machine is not
/// attached to the project's Gist yet.
pub fn needs_attach(e: &Error) -> (r: bool)
    ensures
        r == not_attached(*e),
{
    match e {
        Error::InvalidConfig(m) => vec_starts_with(&chars_of(m.as_str()), &chars_of("this machine is not attached to gist ")),
        _ => false,
    }
}

/// The error when no `.ctx-sync.toml` is found above the working directory.
pub fn no_project_error() -> (e: Error)
    ensures
        e matches Error::InvalidConfig(m) && m@
            == "no .ctx-sync.toml found; ask a human to run `ctx-sync init` or `ctx-sync attach <gist>`"@,
{
    Error::InvalidConfig(String::from_str(
        "no .ctx-sync.toml found; ask a human to run `ctx-sync init` or `ctx-sync attach <gist>`",
    ))
}

/// The name to register with, when the worktree is not registered yet.
pub fn registration_name(name: Option<&str>) -> (r: Result<&str, Error>)
    ensures
        match name {
            Some(n) => r == Ok::<&str, Error>(n),
            None => r matches Err(Error::InvalidConfig(m)) && m@
                == "worker is not registered; run `ctx-sync agent start --name <name>` or `ctx-sync register <name>`"@,
        },
{
    match name {
        Some(n) => Ok(n),
        None => Err(Error::InvalidConfig(String::from_str(
            "worker is not registered; run `ctx-sync agent start --name <name>` or `ctx-sync register <name>`",
        ))),
    }
}

/// The warnings `agent start` gives about the local context: unpushed
/// commits, then an unresolved conflict with its files.
pub open spec fn start_warnings_view(diverged: bool, conflict: Option<Seq<Seq<char>>>) -> Seq<Seq<char>> {
    let a = if diverged {
        seq!["local context has unpushed commits; run `ctx-sync sync`"@]
    } else {
        Seq::empty()
    };
    match conflict {
        Some(files) => a.push("unresolved context conflict: "@ + join(files, ", "@) + "; run `ctx-sync status`"@),
        None => a,
    }
}

pub fn start_warnings(diverged: bool, conflict: Option<&Vec<String>>) -> (r: Vec<String>)
    ensures
        sv(r@) == start_warnings_view(
            diverged,
            match conflict {
                Some(f) => Some(sv(f@)),
                None => None,
            },
        ),
{
    let mut out: Vec<String> = Vec::new();
    if diverged {
        out.push(String::from_str("local context has unpushed commits; run `ctx-sync sync`"));
    }
    if let Some(files) = conflict {
        let mut m = String::new();
        m.append("unresolved context conflict: ");
        let list = join_strings(files, ", ");
        m.append(list.as_str());
        m.append("; run `ctx-sync status`");
        let ghost before = out@;
        out.push(m);
        assert(sv(out@) =~= sv(before).push(m@));
    }
    proof {
        if !diverged {
            assert(sv(Seq::<String>::empty()) =~= Seq::<Seq<char>>::empty());
        } else {
            assert(sv(seq![out@[0]]) =~= seq!["local context has unpushed commits; run `ctx-sync sync`"@]);
        }
    }
    assert(sv(out@) =~= start_warnings_view(
        diverged,
        match conflict {
            Some(f) => Some(sv(f@)),
            None => None,
        },
    ));
    out
}

/// What `agent start` does about this worker's status.
#[derive(Debug, Clone, PartialEq, Eq)]
pub enum ResumeStep {
    /// The worker is active (or has no file yet).
    Nothing,
    /// Set the worker back to working.
    Resume,
    /// Report the finished status.
    Warn(String),
}

/// The first worker with ID `id`.
pub open spec fn find_worker(ws: Seq<WorkerView>, id: u128) -> Option<WorkerView>
    decreases ws.len(),
{
    if ws.len() == 0 {
        None
    } else {
        match find_worker(ws.drop_last(), id) {
            Some(w) => Some(w),
            None => if ws.last().id == id {
                Some(ws.last())
            } else {
                None
            },
        }
    }
}

pub open spec fn finished(s: WorkerStatus) -> bool {
    s == WorkerStatus::Done || s == WorkerStatus::Abandoned
}

/// A finished worker resumes with `--resume` and is warned about otherwise.
pub open spec fn resume_step_view(ws: Seq<WorkerView>, me: u128, resume: bool) -> Option<Option<Seq<char>>> {
    match find_worker(ws, me) {
        Some(w) => if finished(w.status) {
            if resume {
                Some(None)
            } else {
                Some(Some("your worker status is "@ + worker_status_name(w.status) + "; pass --resume to continue"@))
            }
        } else {
            None
        },
        None => None,
    }
}

fn find_worker_index(workers: &[Worker], id: u128) -> (r: Option<usize>)
    ensures
        match r {
            Some(i) => i < workers@.len() && find_worker(workers_view(workers@), id) == Some(workers@[i as int]@),
            None => find_worker(workers_view(workers@), id) is None,
        },
{
    let ghost ws = workers_view(workers@);
    let mut i: usize = 0;
    assert(ws.take(0) =~= Seq::<WorkerView>::empty());
    while i < workers.len()
        invariant
            i <= workers.len(),
            ws == workers_view(workers@),
            find_worker(ws.take(i as int), id) is None,
        decreases workers.len() - i,
    {
        assert(ws.take(i + 1).drop_last() =~= ws.take(i as int));
        if workers[i].id == id {
            proof {
                lemma_find_worker_prefix(ws, id, i as int + 1);
            }
            return Some(i);
        }
        i = i + 1;
    }
    assert(ws.take(workers.len() as int) =~= ws);
    None
}

proof fn lemma_find_worker_prefix(ws: Seq<WorkerView>, id: u128, k: int)
    requires
        0 <= k <= ws.len(),
        find_worker(ws.take(k), id) is Some,
    ensures
        find_worker(ws, id) == find_worker(ws.take(k), id),
    decreases ws.len() - k,
{
    if k < ws.len() {
        assert(ws.take(k + 1).drop_last() =~= ws.take(k));
        lemma_find_worker_prefix(ws, id, k + 1);
    } else {
        assert(ws.take(k) =~= ws);
    }
}

/// What to do about worker `me` among the workers of the snapshot.
pub fn resume_step(workers: &[Worker], me: u128, resume: bool) -> (r: ResumeStep)
    ensures
        match resume_step_view(workers_view(workers@), me, resume) {
            None => r == ResumeStep::Nothing,
            Some(None) => r == ResumeStep::Resume,
            Some(Some(m)) => r matches ResumeStep::Warn(x) && x@ == m,
        },
{
    match find_worker_index(workers, me) {
        None => ResumeStep::Nothing,
        Some(i) => {
            let w = &workers[i];
            match w.status {
                WorkerStatus::Done | WorkerStatus::Abandoned => if resume {
                    ResumeStep::Resume
                } else {
                    let mut m = String::new();
                    m.append("your worker status is ");
                    m.append(w.status.as_str());
                    m.append("; pass --resume to continue");
                    ResumeStep::Warn(m)
                },
                _ => ResumeStep::Nothing,
            }
        },
    }
}

// ---------------------------------------------------------------------------
// Remote updates for a diverged worktree
// ---------------------------------------------------------------------------

pub open spec fn decisions_view(v: Seq<Decision>) -> Seq<DecisionView> {
    v.map_values(|d: Decision| d@)
}

/// The workers without those with ID `id`.
pub open spec fn without_worker(ws: Seq<WorkerView>, id: u128) -> Seq<WorkerView> {
    ws.filter(|w: WorkerView| w.id != id)
}

/// Whether `ds` holds a decision with ID `id`.
pub open spec fn has_decision(ds: Seq<DecisionView>, id: Seq<char>) -> bool {
    exists|i: int| 0 <= i < ds.len() && ds[i].id == id
}

/// `remote` followed by the `local` decisions whose ID it (so far) lacks.
pub open spec fn add_missing(remote: Seq<DecisionView>, local: Seq<DecisionView>) -> Seq<DecisionView>
    decreases local.len(),
{
    if local.len() == 0 {
        remote
    } else {
        let r = add_missing(remote, local.drop_last());
        if has_decision(r, local.last().id) {
            r
        } else {
            r.push(local.last())
        }
    }
}

fn has_decision_exec(ds: &Vec<Decision>, id: &crate::model::decision::DecisionId) -> (r: bool)
    ensures
        r == has_decision(decisions_view(ds@), id@),
{
    let mut i: usize = 0;
    while i < ds.len()
        invariant
            i <= ds.len(),
            forall|j: int| 0 <= j < i ==> decisions_view(ds@)[j].id != id@,
        decreases ds.len() - i,
    {
        if ds[i].id.same(id) {
            assert(decisions_view(ds@)[i as int].id == id@);
            return true;
        }
        i = i + 1;
    }
    false
}

/// The remote snapshot with this worktree's unpushed work: its own worker
/// replaces the remote one (workers sorted by name and ID again), and its
/// decisions that the remote lacks are added (decisions sorted by ID).
/// When the local snapshot has no worker `own_id`, the remote workers stay
/// as they are.
pub fn merge_remote_snapshot(local: &ContextSnapshot, remote: ContextSnapshot, own_id: u128) -> (r: ContextSnapshot)
    ensures
        r.meta == remote.meta,
        r.project == remote.project,
        r.architecture == remote.architecture,
        r.warnings == remote.warnings,
        match find_worker(workers_view(local.workers@), own_id) {
            Some(own) => workers_view(r.workers@).to_multiset() == without_worker(
                workers_view(remote.workers@),
                own_id,
            ).push(own).to_multiset() && sorted_by_key(r.workers@),
            None => r.workers == remote.workers,
        },
        decisions_view(r.decisions@).to_multiset() == add_missing(
            decisions_view(remote.decisions@),
            decisions_view(local.decisions@),
        ).to_multiset(),
        sorted_by_key(r.decisions@),
{
    let ContextSnapshot { meta, project, architecture, decisions, workers, warnings } = remote;
    let ghost remote_workers = workers_view(workers@);
    let workers = match find_worker_index(&local.workers, own_id) {
        None => workers,
        Some(i) => {
            let mut kept: Vec<Worker> = Vec::new();
            let mut k: usize = 0;
            let ghost rw = workers@;
            assert(rw.take(0) =~= Seq::<Worker>::empty());
            while k < workers.len()
                invariant
                    k <= workers.len(),
                    rw == workers@,
                    workers_view(kept@) == without_worker(workers_view(rw.take(k as int)), own_id),
                decreases workers.len() - k,
            {
                assert(rw.take(k + 1).drop_last() =~= rw.take(k as int));
                assert(workers_view(rw.take(k + 1)) =~= workers_view(rw.take(k as int)).push(workers@[k as int]@));
                proof {
                    workers_view(rw.take(k as int)).lemma_filter_push(workers@[k as int]@, |w: WorkerView| w.id != own_id);
                }
                if workers[k].id != own_id {
                    let c = copy_worker(&workers[k]);
                    let ghost before = kept@;
                    kept.push(c);
                    assert(workers_view(kept@) =~= workers_view(before).push(c@));
                }
                k = k + 1;
            }
            assert(rw.take(workers.len() as int) =~= rw);
            let own = copy_worker(&local.workers[i]);
            let ghost before = kept@;
            kept.push(own);
            assert(workers_view(kept@) =~= workers_view(before).push(own@));
            let sorted = sort_by_key(kept);
            proof {
                lemma_multiset_map(sorted@, kept@, |w: Worker| w@);
            }
            sorted
        },
    };
    let mut all = decisions;
    let ghost start = decisions_view(all@);
    let ghost lv = decisions_view(local.decisions@);
    let mut j: usize = 0;
    assert(lv.take(0) =~= Seq::<DecisionView>::empty());
    while j < local.decisions.len()
        invariant
            j <= local.decisions.len(),
            lv == decisions_view(local.decisions@),
            decisions_view(all@) == add_missing(start, lv.take(j as int)),
        decreases local.decisions.len() - j,
    {
        assert(lv.take(j + 1).drop_last() =~= lv.take(j as int));
        assert(lv.take(j + 1).last() == local.decisions@[j as int]@);
        if !has_decision_exec(&all, &local.decisions[j].id) {
            let c = copy_decision(&local.decisions[j]);
            let ghost before = all@;
            all.push(c);
            assert(decisions_view(all@) =~= decisions_view(before).push(c@));
        }
        j = j + 1;
    }
    assert(lv.take(local.decisions.len() as int) =~= lv);
    let sorted = sort_by_key(all);
    proof {
        lemma_multiset_map(sorted@, all@, |d: Decision| d@);
    }
    ContextSnapshot { meta, project, architecture, decisions: sorted, workers, warnings }
}

/// What `agent start` reports: the context to onboard with and what it did.
#[derive(Debug, Clone)]
pub struct AgentStartOutcome {
    pub snapshot: ContextSnapshot,
    pub attached: bool,
    pub registered: bool,
    pub resumed: bool,
    pub warnings: Vec<String>,
}

/// The error of opening a project this machine is not attached to is the
/// one `agent start` answers by attaching.
pub proof fn lemma_unattached_project_is_attached(e: Error, gist_id: Seq<char>)
    requires
        e matches Error::InvalidConfig(m) && m@ == crate::ops::workspace::not_attached_text(gist_id),
    ensures
        not_attached(e),
{
    let p = "this machine is not attached to gist "@;
    if let Error::InvalidConfig(m) = e {
        let t = crate::ops::workspace::not_attached_text(gist_id);
        assert(t.subrange(0, p.len() as int) =~= p);
    }
}

} // verus!
