//! `pull` and the `sync` loop.

use vstd::prelude::*;

use crate::error::Error;
use crate::text::{
    chars_of, digits_num, only_digits, parse_u32_digits, split_once, sv, trim, trim_vec,
    vec_split_once,
};

verus! {

#[derive(Debug, Clone, PartialEq, Eq)]
pub enum PullOutcome {
    UpToDate,
    FastForwarded { from: String, to: String },
    Diverged { ahead: u32, behind: u32 },
}

/// What `pull` does after fetching.
#[derive(Debug, Clone, Copy, PartialEq, Eq, Structural)]
pub enum PullPlan {
    /// Nothing new on the remote.
    UpToDate,
    /// Both sides have new commits: leave the repository as it is.
    Diverged { ahead: u32, behind: u32 },
    /// Only the remote moved: fast-forward.
    FastForward,
}

/// `pull` never rewrites local commits.
pub fn pull_plan(ahead: u32, behind: u32) -> (p: PullPlan)
    ensures
        p == (if behind == 0 {
            PullPlan::UpToDate
        } else if ahead > 0 {
            PullPlan::Diverged { ahead, behind }
        } else {
            PullPlan::FastForward
        }),
{
    if behind == 0 {
        PullPlan::UpToDate
    } else if ahead > 0 {
        PullPlan::Diverged { ahead, behind }
    } else {
        PullPlan::FastForward
    }
}

/// A count written by git: decimal digits that fit in a `u32`.
pub open spec fn count_of(s: Seq<char>) -> Option<u32> {
    if s.len() > 0 && only_digits(s) && digits_num(s) <= u32::MAX {
        Some(digits_num(s) as u32)
    } else {
        None
    }
}

/// `(ahead, behind)` from the output of `git rev-list --left-right --count
/// HEAD...<upstream>`: two counts separated by a tab.
pub open spec fn counts_of(out: Seq<char>) -> Option<(u32, u32)> {
    match split_once(trim(out), '\t') {
        Some(p) => match (count_of(p.0), count_of(p.1)) {
            (Some(a), Some(b)) => Some((a, b)),
            _ => None,
        },
        None => None,
    }
}

fn count_vec(v: &Vec<char>) -> (r: Option<u32>)
    ensures
        r == count_of(v@),
{
    if v.len() == 0 {
        return None;
    }
    let mut i: usize = 0;
    while i < v.len()
        invariant
            i <= v.len(),
            forall|j: int| 0 <= j < i ==> crate::text::is_digit(#[trigger] v@[j]),
        decreases v.len() - i,
    {
        if !crate::text::char_is_digit(v[i]) {
            return None;
        }
        i = i + 1;
    }
    parse_u32_digits(v)
}

/// Reads the commits ahead and behind from `git rev-list --left-right
/// --count` output; `None` when it does not have that form.
pub fn parse_counts(out: &str) -> (r: Option<(u32, u32)>)
    ensures
        r == counts_of(out@),
{
    let t = trim_vec(&chars_of(out));
    match vec_split_once(&t, '\t') {
        Some((a, b)) => match (count_vec(&a), count_vec(&b)) {
            (Some(x), Some(y)) => Some((x, y)),
            _ => None,
        },
        None => None,
    }
}

#[derive(Debug, Clone, PartialEq, Eq)]
pub struct SyncOutcome {
    pub committed: Option<String>,
    pub pushed: bool,
    pub revision: String,
    pub attempts: u32,
    pub warnings: Vec<String>,
}

/// Number of fetch-rebase-push rounds before giving up.
pub const MAX_ATTEMPTS: u32 = 3;

/// Steps of the sync loop, abstracted so that the loop runs without git.
pub trait SyncOps {
    fn fetch(&mut self) -> Result<(), Error>;

    fn ahead_behind(&mut self) -> Result<(u32, u32), Error>;

    /// `Ok(None)` on success, `Ok(Some(files))` on a conflict (already aborted).
    fn rebase(&mut self) -> Result<Option<Vec<String>>, Error>;

    /// `Ok(true)` on success, `Ok(false)` when rejected as non-fast-forward.
    fn push(&mut self) -> Result<bool, Error>;
}

#[derive(Debug, Clone, PartialEq, Eq)]
pub enum LoopResult {
    Pushed { attempts: u32 },
    NothingToPush { attempts: u32 },
    Conflict { files: Vec<String> },
}

/// The next operation of the loop.
#[derive(Debug, Clone, Copy, PartialEq, Eq, Structural)]
pub enum SyncStep {
    Fetch,
    Count,
    Rebase,
    Recount,
    Push,
}

/// Where the loop is: the attempt (1 to 3) and what it does next.
#[derive(Debug, Clone, Copy, PartialEq, Eq, Structural)]
pub struct SyncMachine {
    pub attempt: u32,
    pub next: SyncStep,
}

/// What an operation reported.
#[derive(Debug)]
pub enum SyncEvent {
    Fetched,
    Counted { ahead: u32, behind: u32 },
    Rebased { conflict: Option<Vec<String>> },
    PushAccepted(bool),
}

#[derive(Debug)]
pub enum SyncDecision {
    Continue(SyncMachine),
    Done(LoopResult),
    /// Three pushes were rejected.
    RetryExceeded,
}

pub open spec fn machine_ok(m: SyncMachine) -> bool {
    1 <= m.attempt <= MAX_ATTEMPTS
}

/// The event that answers the machine's next operation.
pub open spec fn answers(step: SyncStep, ev: SyncEvent) -> bool {
    match step {
        SyncStep::Fetch => ev is Fetched,
        SyncStep::Count | SyncStep::Recount => ev is Counted,
        SyncStep::Rebase => ev is Rebased,
        SyncStep::Push => ev is PushAccepted,
    }
}

/// The loop, one event at a time:
/// fetch; count; when behind, rebase (a conflict ends the loop) and count
/// again; with nothing ahead there is nothing to push; otherwise push, and a
/// rejected push starts the next attempt, up to three.
pub open spec fn next_decision(m: SyncMachine, ev: SyncEvent) -> SyncDecision {
    match ev {
        SyncEvent::Fetched => SyncDecision::Continue(SyncMachine { next: SyncStep::Count, ..m }),
        SyncEvent::Counted { ahead, behind } => if m.next == SyncStep::Count && behind > 0 {
            SyncDecision::Continue(SyncMachine { next: SyncStep::Rebase, ..m })
        } else if ahead == 0 {
            SyncDecision::Done(LoopResult::NothingToPush { attempts: m.attempt })
        } else {
            SyncDecision::Continue(SyncMachine { next: SyncStep::Push, ..m })
        },
        SyncEvent::Rebased { conflict } => match conflict {
            Some(files) => SyncDecision::Done(LoopResult::Conflict { files }),
            None => SyncDecision::Continue(SyncMachine { next: SyncStep::Recount, ..m }),
        },
        SyncEvent::PushAccepted(ok) => if ok {
            SyncDecision::Done(LoopResult::Pushed { attempts: m.attempt })
        } else if m.attempt < MAX_ATTEMPTS {
            SyncDecision::Continue(SyncMachine { attempt: (m.attempt + 1) as u32, next: SyncStep::Fetch })
        } else {
            SyncDecision::RetryExceeded
        },
    }
}

/// The machine at the start of a sync: first attempt, fetch first.
pub open spec fn first_machine() -> SyncMachine {
    SyncMachine { attempt: 1, next: SyncStep::Fetch }
}

/// The machine at the start of a sync.
pub fn sync_start() -> (m: SyncMachine)
    ensures
        m == first_machine(),
{
    SyncMachine { attempt: 1, next: SyncStep::Fetch }
}

/// One step of the loop.
pub fn sync_step(m: SyncMachine, ev: SyncEvent) -> (d: SyncDecision)
    requires
        machine_ok(m),
        answers(m.next, ev),
    ensures
        d == next_decision(m, ev),
        d matches SyncDecision::Continue(n) ==> machine_ok(n),
{
    match ev {
        SyncEvent::Fetched => SyncDecision::Continue(SyncMachine { next: SyncStep::Count, ..m }),
        SyncEvent::Counted { ahead, behind } => {
            let first = match m.next {
                SyncStep::Count => true,
                _ => false,
            };
            if first && behind > 0 {
                SyncDecision::Continue(SyncMachine { next: SyncStep::Rebase, ..m })
            } else if ahead == 0 {
                SyncDecision::Done(LoopResult::NothingToPush { attempts: m.attempt })
            } else {
                SyncDecision::Continue(SyncMachine { next: SyncStep::Push, ..m })
            }
        },
        SyncEvent::Rebased { conflict } => match conflict {
            Some(files) => SyncDecision::Done(LoopResult::Conflict { files }),
            None => SyncDecision::Continue(SyncMachine { next: SyncStep::Recount, ..m }),
        },
        SyncEvent::PushAccepted(ok) => {
            if ok {
                SyncDecision::Done(LoopResult::Pushed { attempts: m.attempt })
            } else if m.attempt < MAX_ATTEMPTS {
                SyncDecision::Continue(SyncMachine { attempt: m.attempt + 1, next: SyncStep::Fetch })
            } else {
                SyncDecision::RetryExceeded
            }
        },
    }
}

/// How far the loop is from its end: the attempts left, then the steps
/// left in this attempt.
pub open spec fn progress(m: SyncMachine) -> int {
    (MAX_ATTEMPTS - m.attempt) * 8 + match m.next {
        SyncStep::Fetch => 5int,
        SyncStep::Count => 4,
        SyncStep::Rebase => 3,
        SyncStep::Recount => 2,
        SyncStep::Push => 1,
    }
}

/// The loop after the events `evs`, one at a time from `m`: the machine it
/// has reached, or the decision that ended it (later events are not read).
pub open spec fn run_sync(m: SyncMachine, evs: Seq<SyncEvent>) -> SyncDecision
    decreases evs.len(),
{
    if evs.len() == 0 {
        SyncDecision::Continue(m)
    } else {
        match next_decision(m, evs[0]) {
            SyncDecision::Continue(n) => run_sync(n, evs.drop_first()),
            d => d,
        }
    }
}

/// Each event answers the operation the loop asked for at that point, and
/// the loop ends at the last event at the latest.
pub open spec fn trace_ok(m: SyncMachine, evs: Seq<SyncEvent>) -> bool
    decreases evs.len(),
{
    evs.len() == 0 || (answers(m.next, evs[0]) && match next_decision(m, evs[0]) {
        SyncDecision::Continue(n) => trace_ok(n, evs.drop_first()),
        _ => evs.len() == 1,
    })
}

proof fn lemma_run_push(m: SyncMachine, evs: Seq<SyncEvent>, n: SyncMachine, ev: SyncEvent)
    requires
        run_sync(m, evs) == SyncDecision::Continue(n),
        trace_ok(m, evs),
        answers(n.next, ev),
    ensures
        run_sync(m, evs.push(ev)) == next_decision(n, ev),
        trace_ok(m, evs.push(ev)),
    decreases evs.len(),
{
    let t = evs.push(ev);
    if evs.len() == 0 {
        assert(m == n);
        assert(t.drop_first() =~= Seq::<SyncEvent>::empty());
        assert(t[0] == ev);
        match next_decision(m, ev) {
            SyncDecision::Continue(k) => {
                assert(run_sync(k, Seq::<SyncEvent>::empty()) == SyncDecision::Continue(k));
                assert(trace_ok(k, Seq::<SyncEvent>::empty()));
            },
            _ => {},
        }
    } else {
        assert(t[0] == evs[0]);
        assert(t.drop_first() =~= evs.drop_first().push(ev));
        match next_decision(m, evs[0]) {
            SyncDecision::Continue(k) => {
                lemma_run_push(k, evs.drop_first(), n, ev);
            },
            _ => {},
        }
    }
}

/// Runs the loop with `ops` and returns, beside its result, the events the
/// operations answered, in order. Each answers the operation the loop asked
/// for, and the result is what the loop decides over them from
/// `first_machine()`: a finished loop gives its result, three rejected pushes
/// the retry-exceeded error, and a loop cut short by an operation's error
/// that error.
pub fn sync_loop<O: SyncOps>(ops: &mut O) -> (r: (Result<LoopResult, Error>, Ghost<Seq<SyncEvent>>))
    ensures
        trace_ok(first_machine(), r.1@),
        run_sync(first_machine(), r.1@) matches SyncDecision::Done(res) ==> r.0 == Ok::<LoopResult, Error>(res),
        run_sync(first_machine(), r.1@) is RetryExceeded ==> r.0 matches Err(Error::SyncRetryExceeded),
        run_sync(first_machine(), r.1@) is Continue ==> r.0 is Err,
        r.0 matches Ok(LoopResult::Pushed { attempts }) ==> 1 <= attempts <= MAX_ATTEMPTS,
        r.0 matches Ok(LoopResult::NothingToPush { attempts }) ==> 1 <= attempts <= MAX_ATTEMPTS,
{
    let mut m = sync_start();
    let ghost mut trace: Seq<SyncEvent> = Seq::empty();
    loop
        invariant
            machine_ok(m),
            trace_ok(first_machine(), trace),
            run_sync(first_machine(), trace) == SyncDecision::Continue(m),
        decreases progress(m),
    {
        let ev = match m.next {
            SyncStep::Fetch => match ops.fetch() {
                Ok(()) => SyncEvent::Fetched,
                Err(e) => {
                    return (Err(e), Ghost(trace));
                },
            },
            SyncStep::Count | SyncStep::Recount => match ops.ahead_behind() {
                Ok((ahead, behind)) => SyncEvent::Counted { ahead, behind },
                Err(e) => {
                    return (Err(e), Ghost(trace));
                },
            },
            SyncStep::Rebase => match ops.rebase() {
                Ok(conflict) => SyncEvent::Rebased { conflict },
                Err(e) => {
                    return (Err(e), Ghost(trace));
                },
            },
            SyncStep::Push => match ops.push() {
                Ok(ok) => SyncEvent::PushAccepted(ok),
                Err(e) => {
                    return (Err(e), Ghost(trace));
                },
            },
        };
        proof {
            lemma_run_push(first_machine(), trace, m, ev);
            trace = trace.push(ev);
        }
        match sync_step(m, ev) {
            SyncDecision::Continue(n) => {
                assert(progress(n) < progress(m));
                m = n;
            },
            SyncDecision::Done(result) => {
                return (Ok(result), Ghost(trace));
            },
            SyncDecision::RetryExceeded => {
                return (Err(Error::SyncRetryExceeded), Ghost(trace));
            },
        }
    }
}

/// The state of the context repository without touching the network.
#[derive(Debug, Clone, PartialEq)]
pub struct SyncState {
    pub branch: String,
    pub revision: Option<String>,
    /// Compared with `origin/<branch>` as of the last fetch.
    pub ahead: u32,
    pub behind: u32,
    /// There are uncommitted changes.
    pub dirty: bool,
    pub conflict: Option<crate::state::conflict::ConflictRecord>,
}

/// `git push` was refused because the remote has commits this clone lacks
/// (git says `non-fast-forward` or `fetch first`); the loop then starts over.
pub fn push_needs_fetch(stderr: &str) -> (r: bool)
    ensures
        r == (crate::text::contains(stderr@, "non-fast-forward"@) || crate::text::contains(stderr@, "fetch first"@)),
{
    let t = crate::text::chars_of(stderr);
    crate::text::vec_contains(&t, &crate::text::chars_of("non-fast-forward"))
        || crate::text::vec_contains(&t, &crate::text::chars_of("fetch first"))
}

/// The error for another failed push: git's message, and a hint when a
/// hook is mentioned.
pub fn push_failure(stderr: &str) -> (e: Error)
    ensures
        e matches Error::Remote(m) && m@ == "git push failed: "@ + crate::text::trim(stderr@) + if crate::text::contains(
            crate::bootstrap::manifest::lowercase(stderr@),
            "hook"@,
        ) {
            " (a git hook may have rejected the push)"@
        } else {
            Seq::<char>::empty()
        },
{
    let mut m = String::new();
    m.append("git push failed: ");
    let t = crate::text::string_of(&crate::text::trim_vec(&crate::text::chars_of(stderr)));
    m.append(t.as_str());
    let lower = crate::bootstrap::manifest::lowercase_string(stderr);
    if crate::text::vec_contains(&crate::text::chars_of(lower.as_str()), &crate::text::chars_of("hook")) {
        m.append(" (a git hook may have rejected the push)");
    }
    Error::Remote(m)
}

/// The error for a rebase that failed without a conflict; `abort` is the
/// error text of `rebase --abort` when that failed too.
pub fn rebase_failure(detail: &str, abort: Option<&str>) -> (e: Error)
    ensures
        e matches Error::General(m) && m@ == "git rebase failed: "@ + crate::text::trim(detail@) + match abort {
            Some(a) => "; rebase --abort failed: "@ + crate::text::trim(a@),
            None => Seq::<char>::empty(),
        },
{
    let mut m = String::new();
    m.append("git rebase failed: ");
    let d = crate::text::string_of(&crate::text::trim_vec(&crate::text::chars_of(detail)));
    m.append(d.as_str());
    if let Some(a) = abort {
        m.append("; rebase --abort failed: ");
        let t = crate::text::string_of(&crate::text::trim_vec(&crate::text::chars_of(a)));
        m.append(t.as_str());
    }
    Error::General(m)
}

} // verus!
