//! Explicit maintenance of finished and stale worker files.
//!
//! Which files go is decided here; removing them, committing and syncing
//! happen outside the library.

use vstd::prelude::*;

use crate::clock::{TimeDelta, Timestamp};
use crate::ids::{short_id, short_id_of};
use crate::model::stale::{elapsed, is_stale, longer};
use crate::model::worker::{status_active, worker_file_name, Worker, WorkerStatus, WorkerView};
use crate::ops::claim::workers_view;
use crate::store::sync::SyncOutcome;
use crate::text::{decimal, u64_decimal};

verus! {

pub struct PruneOptions {
    /// Also target stale active workers when set.
    pub stale_after: Option<TimeDelta>,
    pub dry_run: bool,
    pub sync: bool,
    pub now: Timestamp,
}

#[derive(Debug, Clone, Copy, PartialEq, Eq, Structural)]
pub enum PruneReason {
    Done,
    Abandoned,
    Stale,
}

impl PruneReason {
    /// The lowercase name used in reports.
    pub fn as_str(&self) -> (r: &'static str)
        ensures
            r@ == match *self {
                PruneReason::Done => "done"@,
                PruneReason::Abandoned => "abandoned"@,
                PruneReason::Stale => "stale"@,
            },
    {
        match self {
            PruneReason::Done => "done",
            PruneReason::Abandoned => "abandoned",
            PruneReason::Stale => "stale",
        }
    }
}

#[derive(Debug, Clone)]
pub struct PrunedWorker {
    pub name: String,
    pub short_id: String,
    pub file_name: String,
    pub last_updated: Timestamp,
    pub reason: PruneReason,
}

#[derive(Debug, Clone)]
pub struct PruneOutcome {
    /// Planned removals when dry_run is true, actual removals otherwise.
    pub removed: Vec<PrunedWorker>,
    pub committed: Option<String>,
    pub sync: Option<SyncOutcome>,
    pub warnings: Vec<String>,
}

/// Why a worker's file goes: it is done or abandoned, or (with a
/// threshold) active and not updated for longer than the threshold.
pub open spec fn prune_reason(w: WorkerView, stale_after: Option<TimeDelta>, now: Timestamp) -> Option<PruneReason> {
    match w.status {
        WorkerStatus::Done => Some(PruneReason::Done),
        WorkerStatus::Abandoned => Some(PruneReason::Abandoned),
        _ => match stale_after {
            Some(t) => if status_active(w.status) && longer(elapsed(now, w.last_updated), t) {
                Some(PruneReason::Stale)
            } else {
                None
            },
            None => None,
        },
    }
}

/// `(name, short id, file name, last updated, reason)`.
pub open spec fn pruned_view(p: PrunedWorker) -> (Seq<char>, Seq<char>, Seq<char>, Timestamp, PruneReason) {
    (p.name@, p.short_id@, p.file_name@, p.last_updated, p.reason)
}

/// The workers to remove, in the order of `ws`; `me` is never removed.
pub open spec fn prune_plan(
    ws: Seq<WorkerView>,
    me: Option<u128>,
    stale_after: Option<TimeDelta>,
    now: Timestamp,
) -> Seq<(Seq<char>, Seq<char>, Seq<char>, Timestamp, PruneReason)>
    decreases ws.len(),
{
    if ws.len() == 0 {
        Seq::empty()
    } else {
        let r = prune_plan(ws.drop_last(), me, stale_after, now);
        let w = ws.last();
        if me == Some(w.id) {
            r
        } else {
            match prune_reason(w, stale_after, now) {
                Some(reason) => r.push((w.name, short_id_of(w.id), worker_file_name(w.id), w.last_updated, reason)),
                None => r,
            }
        }
    }
}

fn reason_of(w: &Worker, stale_after: Option<TimeDelta>, now: Timestamp) -> (r: Option<PruneReason>)
    ensures
        r == prune_reason(w@, stale_after, now),
{
    match w.status {
        WorkerStatus::Done => Some(PruneReason::Done),
        WorkerStatus::Abandoned => Some(PruneReason::Abandoned),
        _ => match stale_after {
            Some(t) => if is_stale(w, now, t) {
                Some(PruneReason::Stale)
            } else {
                None
            },
            None => None,
        },
    }
}

/// The workers `prune` removes: every other worker that is done or
/// abandoned, and with a threshold every other active worker that is stale.
pub fn plan_prune(workers: &[Worker], me: Option<u128>, stale_after: Option<TimeDelta>, now: Timestamp) -> (r: Vec<PrunedWorker>)
    ensures
        r@.map_values(|p: PrunedWorker| pruned_view(p)) == prune_plan(workers_view(workers@), me, stale_after, now),
{
    let ghost ws = workers_view(workers@);
    let mut out: Vec<PrunedWorker> = Vec::new();
    let mut i: usize = 0;
    assert(ws.take(0) =~= Seq::<WorkerView>::empty());
    assert(out@.map_values(|p: PrunedWorker| pruned_view(p)) =~= Seq::<(Seq<char>, Seq<char>, Seq<char>, Timestamp, PruneReason)>::empty());
    while i < workers.len()
        invariant
            i <= workers.len(),
            ws == workers_view(workers@),
            out@.map_values(|p: PrunedWorker| pruned_view(p)) == prune_plan(ws.take(i as int), me, stale_after, now),
        decreases workers.len() - i,
    {
        assert(ws.take(i + 1).drop_last() =~= ws.take(i as int));
        assert(ws.take(i + 1).last() == workers@[i as int]@);
        let w = &workers[i];
        let mine = match me {
            Some(id) => id == w.id,
            None => false,
        };
        if !mine {
            match reason_of(w, stale_after, now) {
                Some(reason) => {
                    let p = PrunedWorker {
                        name: w.name.clone(),
                        short_id: short_id(w.id),
                        file_name: w.file_name(),
                        last_updated: w.last_updated,
                        reason,
                    };
                    let ghost before = out@;
                    out.push(p);
                    assert(out@.map_values(|p: PrunedWorker| pruned_view(p)) =~= before.map_values(
                        |p: PrunedWorker| pruned_view(p),
                    ).push(pruned_view(p)));
                },
                None => {},
            }
        }
        i = i + 1;
    }
    assert(ws.take(workers.len() as int) =~= ws);
    out
}

/// `ctx-sync: prune <n> worker(s)`.
pub fn prune_commit_message(n: usize) -> (r: String)
    ensures
        r@ == "ctx-sync: prune "@ + decimal(n as nat) + " worker(s)"@,
{
    let mut s = String::new();
    s.append("ctx-sync: prune ");
    let d = u64_decimal(n as u64);
    s.append(d.as_str());
    s.append(" worker(s)");
    s
}

} // verus!
