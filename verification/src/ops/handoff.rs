//! `handoff`: update this worker's own file for other workers.
//!
//! Only the caller's worker file is ever written. The file describes the
//! current state, so list arguments replace the stored lists by default.
//! Reading the file, asking git and committing happen outside the library.

use vstd::prelude::*;

use crate::clock::Timestamp;
use crate::ids::short_id;
use crate::model::decision::opt_view;
use crate::model::md::copy_strings;
use crate::model::worker::{copy_worker, fresh_worker, Worker, WorkerStatus, WorkerView};
use crate::ops::claim::{
    add_claims, has_item, lemma_add_claims, no_duplicates, all_conflicts, append_new, changed_file_conflicts, conflict_warning, workers_view,
    ConflictTest,
};
use crate::repo_info::RepoInfo;
use crate::secrets::{fields_warnings, lemma_fields_warnings_append, opt_fields, push_opt_warnings, push_warnings};
use crate::store::sync::SyncOutcome;
use crate::text::{decimal, sv, u64_decimal};

verus! {

/// Files taken from git are capped so that worker files stay small.
pub const MAX_AUTO_CHANGED: usize = 50;

#[derive(Debug, Clone)]
pub struct HandoffInput {
    pub task: Option<String>,
    pub summary: Option<String>,
    pub status: Option<WorkerStatus>,
    pub working_on: Option<Vec<String>>,
    pub changed: Option<Vec<String>>,
    pub interface_changes: Option<Vec<String>>,
    pub attention: Option<Vec<String>>,
    pub blocked_by: Option<Vec<String>>,
    /// Append list values instead of replacing them.
    pub append: bool,
}

impl Default for HandoffInput {
    fn default() -> (r: HandoffInput)
        ensures
            r.task is None && r.summary is None && r.status is None,
            r.working_on is None && r.changed is None && r.interface_changes is None,
            r.attention is None && r.blocked_by is None,
            !r.append,
    {
        HandoffInput {
            task: None,
            summary: None,
            status: None,
            working_on: None,
            changed: None,
            interface_changes: None,
            attention: None,
            blocked_by: None,
            append: false,
        }
    }
}

pub open spec fn list_view(o: Option<Vec<String>>) -> Option<Seq<Seq<char>>> {
    match o {
        Some(v) => Some(sv(v@)),
        None => None,
    }
}

/// A list after a handoff: kept without a new value, else replaced, or
/// extended by the new items it lacks when appending.
pub open spec fn list_after(current: Seq<Seq<char>>, new: Option<Seq<Seq<char>>>, append: bool) -> Seq<Seq<char>> {
    match new {
        None => current,
        Some(n) => if append {
            add_claims(current, n)
        } else {
            n
        },
    }
}

/// At most the first fifty files, then a line counting the rest.
pub open spec fn capped(files: Seq<Seq<char>>) -> Seq<Seq<char>> {
    if files.len() <= MAX_AUTO_CHANGED {
        files
    } else {
        files.take(MAX_AUTO_CHANGED as int).push(
            "... and "@ + decimal((files.len() - MAX_AUTO_CHANGED) as nat) + " more files"@,
        )
    }
}

pub open spec fn or_keep<T>(new: Option<T>, current: T) -> T {
    match new {
        Some(v) => v,
        None => current,
    }
}

/// The worker after a handoff.
/// - An absent value keeps the current one; a given one replaces it (lists
///   are extended without duplicates when appending).
/// - Without `changed`, the files reported by git are used when there are any.
/// - Branch and commit follow the project repository when it reports them.
pub open spec fn handoff_view(w: WorkerView, input: HandoffInput, repo: RepoInfo, now: Timestamp) -> WorkerView {
    WorkerView {
        task: or_keep(opt_view(input.task), w.task),
        summary: or_keep(opt_view(input.summary), w.summary),
        status: or_keep(input.status, w.status),
        working_on: list_after(w.working_on, list_view(input.working_on), input.append),
        changed: if input.changed is None && repo.changed_files@.len() > 0 {
            capped(sv(repo.changed_files@))
        } else {
            list_after(w.changed, list_view(input.changed), input.append)
        },
        interface_changes: list_after(w.interface_changes, list_view(input.interface_changes), input.append),
        attention: list_after(w.attention, list_view(input.attention), input.append),
        blocked_by: list_after(w.blocked_by, list_view(input.blocked_by), input.append),
        branch: if repo.branch is Some {
            opt_view(repo.branch)
        } else {
            w.branch
        },
        commit: if repo.commit is Some {
            opt_view(repo.commit)
        } else {
            w.commit
        },
        last_updated: now,
        ..w
    }
}

fn list_update(current: &Vec<String>, new: &Option<Vec<String>>, append: bool) -> (r: Vec<String>)
    ensures
        sv(r@) == list_after(sv(current@), list_view(*new), append),
{
    match new {
        None => copy_strings(current),
        Some(n) => if append {
            append_new(current, n)
        } else {
            copy_strings(n)
        },
    }
}

fn capped_files(files: &Vec<String>) -> (r: Vec<String>)
    ensures
        sv(r@) == capped(sv(files@)),
{
    if files.len() <= MAX_AUTO_CHANGED {
        return copy_strings(files);
    }
    let mut out: Vec<String> = Vec::new();
    let mut i: usize = 0;
    while i < MAX_AUTO_CHANGED
        invariant
            i <= MAX_AUTO_CHANGED < files.len(),
            sv(out@) == sv(files@).take(i as int),
        decreases MAX_AUTO_CHANGED - i,
    {
        let ghost before = out@;
        let c = files[i].clone();
        out.push(c);
        assert(sv(out@) =~= sv(before).push(c@));
        assert(sv(files@).take(i + 1) =~= sv(files@).take(i as int).push(files@[i as int]@));
        assert(sv(out@) =~= sv(files@).take(i + 1));
        i = i + 1;
    }
    let mut line = String::new();
    line.append("... and ");
    let n = u64_decimal((files.len() - MAX_AUTO_CHANGED) as u64);
    line.append(n.as_str());
    line.append(" more files");
    let ghost before = out@;
    out.push(line);
    assert(sv(out@) =~= sv(before).push(line@));
    out
}

fn opt_string(o: &Option<String>) -> (r: Option<String>)
    ensures
        opt_view(r) == opt_view(*o),
{
    match o {
        Some(s) => Some(s.clone()),
        None => None,
    }
}

/// Applies `input` to `worker`; see `handoff_view`.
pub fn apply_handoff(worker: &Worker, input: &HandoffInput, repo: &RepoInfo, now: Timestamp) -> (r: Worker)
    ensures
        r@ == handoff_view(worker@, *input, *repo, now),
{
    let mut updated = copy_worker(worker);
    if let Some(task) = &input.task {
        updated.task = task.clone();
    }
    if let Some(summary) = &input.summary {
        updated.summary = summary.clone();
    }
    if let Some(status) = input.status {
        updated.status = status;
    }
    updated.working_on = list_update(&worker.working_on, &input.working_on, input.append);
    updated.changed = if input.changed.is_none() && repo.changed_files.len() > 0 {
        capped_files(&repo.changed_files)
    } else {
        list_update(&worker.changed, &input.changed, input.append)
    };
    updated.interface_changes = list_update(&worker.interface_changes, &input.interface_changes, input.append);
    updated.attention = list_update(&worker.attention, &input.attention, input.append);
    updated.blocked_by = list_update(&worker.blocked_by, &input.blocked_by, input.append);
    if repo.branch.is_some() {
        updated.branch = opt_string(&repo.branch);
    }
    if repo.commit.is_some() {
        updated.commit = opt_string(&repo.commit);
    }
    updated.last_updated = now;
    assert(updated@ == handoff_view(worker@, *input, *repo, now));
    updated
}

/// What a list holds after a handoff: the current list without a new value,
/// the new value when replacing, and when appending the current items in
/// front, every new item, nothing from elsewhere, and no item twice that
/// was not twice before.
pub open spec fn list_law(
    current: Seq<Seq<char>>,
    new: Option<Seq<Seq<char>>>,
    append: bool,
    out: Seq<Seq<char>>,
) -> bool {
    match new {
        None => out == current,
        Some(v) => if !append {
            out == v
        } else {
            &&& out.len() >= current.len()
            &&& out.take(current.len() as int) == current
            &&& forall|i: int| 0 <= i < v.len() ==> has_item(out, #[trigger] v[i])
            &&& forall|i: int| 0 <= i < out.len() ==> (has_item(current, #[trigger] out[i]) || has_item(v, out[i]))
            &&& (no_duplicates(current) ==> no_duplicates(out))
        },
    }
}

proof fn lemma_list_law(current: Seq<Seq<char>>, new: Option<Seq<Seq<char>>>, append: bool)
    ensures
        list_law(current, new, append, list_after(current, new, append)),
{
    if let Some(v) = new {
        if append {
            lemma_add_claims(current, v);
        }
    }
}

/// A handoff stamps the time; keeps the id, name, claims and extra
/// sections; takes each given task, summary and status in place of the
/// current one; takes branch and commit from the repository when it reports
/// them; and changes each list as `list_law` says, except that without
/// given changed files the files reported by git (capped) are used when
/// there are any.
pub proof fn lemma_handoff_fields(w: WorkerView, input: HandoffInput, repo: RepoInfo, now: Timestamp)
    ensures
        ({
            let r = handoff_view(w, input, repo, now);
            &&& r.last_updated == now
            &&& r.id == w.id
            &&& r.name == w.name
            &&& r.claims == w.claims
            &&& r.extra_sections == w.extra_sections
            &&& r.task == (match input.task {
                Some(t) => t@,
                None => w.task,
            })
            &&& r.summary == (match input.summary {
                Some(t) => t@,
                None => w.summary,
            })
            &&& r.status == (match input.status {
                Some(s) => s,
                None => w.status,
            })
            &&& r.branch == (match repo.branch {
                Some(b) => Some(b@),
                None => w.branch,
            })
            &&& r.commit == (match repo.commit {
                Some(c) => Some(c@),
                None => w.commit,
            })
            &&& list_law(w.working_on, list_view(input.working_on), input.append, r.working_on)
            &&& list_law(w.interface_changes, list_view(input.interface_changes), input.append, r.interface_changes)
            &&& list_law(w.attention, list_view(input.attention), input.append, r.attention)
            &&& list_law(w.blocked_by, list_view(input.blocked_by), input.append, r.blocked_by)
            &&& (input.changed is None && repo.changed_files@.len() > 0 ==> r.changed == capped(sv(repo.changed_files@)))
            &&& (!(input.changed is None && repo.changed_files@.len() > 0) ==> list_law(
                w.changed,
                list_view(input.changed),
                input.append,
                r.changed,
            ))
        }),
{
    lemma_list_law(w.working_on, list_view(input.working_on), input.append);
    lemma_list_law(w.changed, list_view(input.changed), input.append);
    lemma_list_law(w.interface_changes, list_view(input.interface_changes), input.append);
    lemma_list_law(w.attention, list_view(input.attention), input.append);
    lemma_list_law(w.blocked_by, list_view(input.blocked_by), input.append);
}

/// `name[i]` for each item of a list.
pub open spec fn indexed_fields(name: Seq<char>, items: Seq<Seq<char>>) -> Seq<(Seq<char>, Seq<char>)> {
    Seq::new(items.len(), |i: int| (name + "["@ + decimal(i as nat) + "]"@, items[i]))
}

pub open spec fn list_fields(name: Seq<char>, o: Option<Seq<Seq<char>>>) -> Seq<(Seq<char>, Seq<char>)> {
    match o {
        Some(items) => indexed_fields(name, items),
        None => Seq::empty(),
    }
}

/// The texts of a handoff named as the CLI options are (`attention[0]`, ...).
pub open spec fn handoff_fields(input: HandoffInput) -> Seq<(Seq<char>, Seq<char>)> {
    opt_fields("task"@, opt_view(input.task)) + opt_fields("summary"@, opt_view(input.summary))
        + list_fields("working-on"@, list_view(input.working_on))
        + list_fields("changed"@, list_view(input.changed))
        + list_fields("interface-change"@, list_view(input.interface_changes))
        + list_fields("attention"@, list_view(input.attention))
        + list_fields("blocked-by"@, list_view(input.blocked_by))
}

fn push_list_warnings(out: &mut Vec<String>, name: &str, value: &Option<Vec<String>>)
    ensures
        sv(final(out)@) == sv(old(out)@) + fields_warnings(list_fields(name@, list_view(*value))),
{
    match value {
        Some(items) => {
            let ghost start = sv(out@);
            let ghost fs = indexed_fields(name@, sv(items@));
            let mut i: usize = 0;
            assert(fs.take(0) =~= Seq::<(Seq<char>, Seq<char>)>::empty());
            assert(start + fields_warnings(fs.take(0)) =~= start);
            while i < items.len()
                invariant
                    i <= items.len(),
                    fs == indexed_fields(name@, sv(items@)),
                    sv(out@) == start + fields_warnings(fs.take(i as int)),
                decreases items.len() - i,
            {
                let mut field = String::new();
                field.append(name);
                field.append("[");
                let n = u64_decimal(i as u64);
                field.append(n.as_str());
                field.append("]");
                assert(fs.take(i + 1).drop_last() =~= fs.take(i as int));
                assert(fs.take(i + 1).last() == (field@, items@[i as int]@));
                push_warnings(out, field.as_str(), items[i].as_str());
                i = i + 1;
            }
            assert(fs.take(items.len() as int) =~= fs);
        },
        None => {
            assert(sv(out@) =~= sv(out@) + Seq::<Seq<char>>::empty());
        },
    }
}

/// Warnings for obvious credentials in the values given to a handoff.
pub fn handoff_secret_warnings(input: &HandoffInput) -> (r: Vec<String>)
    ensures
        sv(r@) == fields_warnings(handoff_fields(*input)),
{
    let mut out: Vec<String> = Vec::new();
    push_opt_warnings(&mut out, "task", &input.task);
    push_opt_warnings(&mut out, "summary", &input.summary);
    push_list_warnings(&mut out, "working-on", &input.working_on);
    push_list_warnings(&mut out, "changed", &input.changed);
    push_list_warnings(&mut out, "interface-change", &input.interface_changes);
    push_list_warnings(&mut out, "attention", &input.attention);
    push_list_warnings(&mut out, "blocked-by", &input.blocked_by);
    proof {
        let a = opt_fields("task"@, opt_view(input.task));
        let b = opt_fields("summary"@, opt_view(input.summary));
        let c = list_fields("working-on"@, list_view(input.working_on));
        let d = list_fields("changed"@, list_view(input.changed));
        let e = list_fields("interface-change"@, list_view(input.interface_changes));
        let f = list_fields("attention"@, list_view(input.attention));
        let g = list_fields("blocked-by"@, list_view(input.blocked_by));
        lemma_fields_warnings_append(a, b);
        lemma_fields_warnings_append(a + b, c);
        lemma_fields_warnings_append(a + b + c, d);
        lemma_fields_warnings_append(a + b + c + d, e);
        lemma_fields_warnings_append(a + b + c + d + e, f);
        lemma_fields_warnings_append(a + b + c + d + e + f, g);
        assert(Seq::<Seq<char>>::empty() + fields_warnings(a) =~= fields_warnings(a));
        assert(sv(out@) =~= fields_warnings(a + b + c + d + e + f + g));
    }
    out
}

/// `<mine> overlaps with <worker> (<short id>)'s claim <theirs>`.
pub open spec fn conflict_text(c: (Seq<char>, Seq<char>, Seq<char>, Seq<char>)) -> Seq<char> {
    c.2 + " overlaps with "@ + c.0 + " ("@ + c.1 + ")'s claim "@ + c.3
}

/// What a handoff writes and reports.
pub struct HandoffPlan {
    pub worker: Worker,
    pub warnings: Vec<String>,
    pub commit_message: String,
}

/// The handoff of worker `id` registered as `name`: the worker file after
/// the handoff (a fresh one when there was none), the warnings (credentials
/// in the input, then changed files under another active worker's claim)
/// and the commit message.
pub fn plan_handoff(
    current: Option<Worker>,
    id: u128,
    name: &str,
    input: &HandoffInput,
    repo: &RepoInfo,
    workers: &[Worker],
    now: Timestamp,
) -> (r: HandoffPlan)
    ensures
        r.worker@ == (WorkerView {
            name: name@,
            ..handoff_view(
                match current {
                    Some(w) => w@,
                    None => fresh_worker(id, name@, now),
                },
                *input,
                *repo,
                now,
            )
        }),
        sv(r.warnings@) == fields_warnings(handoff_fields(*input)) + all_conflicts(
            ConflictTest::ChangedFiles,
            r.worker@.changed,
            id,
            workers_view(workers@),
        ).map_values(|c: (Seq<char>, Seq<char>, Seq<char>, Seq<char>)| conflict_text(c)),
        r.commit_message@ == "ctx-sync: handoff "@ + name@,
{
    let mut warnings = handoff_secret_warnings(input);
    let base = match current {
        Some(w) => w,
        None => Worker::new(id, name, now),
    };
    let mut updated = apply_handoff(&base, input, repo, now);
    updated.name = String::from_str(name);
    let conflicts = changed_file_conflicts(updated.changed.as_slice(), id, workers);
    let ghost start = sv(warnings@);
    let ghost cs = all_conflicts(ConflictTest::ChangedFiles, updated@.changed, id, workers_view(workers@));
    let mut i: usize = 0;
    while i < conflicts.len()
        invariant
            i <= conflicts.len(),
            crate::ops::claim::conflicts_view(conflicts@) == cs,
            sv(warnings@) == start + cs.take(i as int).map_values(
                |c: (Seq<char>, Seq<char>, Seq<char>, Seq<char>)| conflict_text(c),
            ),
        decreases conflicts.len() - i,
    {
        let m = conflict_warning(&conflicts[i]);
        let ghost before = warnings@;
        warnings.push(m);
        assert(cs[i as int] == crate::ops::claim::conflict_view(conflicts@[i as int]));
        assert(cs.take(i + 1).map_values(|c: (Seq<char>, Seq<char>, Seq<char>, Seq<char>)| conflict_text(c))
            =~= cs.take(i as int).map_values(|c: (Seq<char>, Seq<char>, Seq<char>, Seq<char>)| conflict_text(c)).push(m@));
        assert(sv(warnings@) =~= sv(before).push(m@));
        i = i + 1;
    }
    assert(cs.take(conflicts.len() as int) =~= cs);
    let mut commit_message = String::new();
    commit_message.append("ctx-sync: handoff ");
    commit_message.append(name);
    HandoffPlan { worker: updated, warnings, commit_message }
}

#[derive(Debug, Clone)]
pub struct HandoffOutcome {
    pub worker_name: String,
    pub short_id: String,
    pub status: WorkerStatus,
    pub file_name: String,
    pub committed: Option<String>,
    pub sync: Option<SyncOutcome>,
    pub warnings: Vec<String>,
}

/// What a handoff reports once its plan was written and committed.
pub fn handoff_outcome(
    id: u128,
    name: &str,
    plan: HandoffPlan,
    committed: Option<String>,
    sync: Option<SyncOutcome>,
) -> (r: HandoffOutcome)
    ensures
        r.worker_name@ == name@,
        r.short_id@ == crate::ids::short_id_of(id),
        r.status == plan.worker.status,
        r.file_name@ == crate::model::worker::worker_file_name(id),
        r.committed == committed,
        r.sync == sync,
        r.warnings == plan.warnings,
{
    HandoffOutcome {
        worker_name: String::from_str(name),
        short_id: short_id(id),
        status: plan.worker.status,
        file_name: Worker::file_name_for(id),
        committed,
        sync,
        warnings: plan.warnings,
    }
}

} // verus!
