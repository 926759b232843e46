//! Advisory path claims for coordinating active workers.
//!
//! Reading and writing the worker file happens outside the library; what a
//! claim changes, and which claims of other workers it runs into, is here.

use vstd::prelude::*;

use crate::clock::Timestamp;
use crate::error::Error;
use crate::ids::{short_id, short_id_of};
use crate::model::claim::{claims_overlap, overlaps, path_matches, validate_pattern, valid_pattern};
use crate::model::md::copy_strings;
use crate::model::worker::{status_active, Worker, WorkerView};
use crate::store::sync::SyncOutcome;
use crate::text::{chars_of, decimal, spec_debug_str, sv, u64_decimal};

verus! {

#[derive(Debug, Clone)]
pub struct ClaimInput {
    pub patterns: Vec<String>,
    /// Release the named patterns, or every own claim when empty.
    pub release: bool,
}

#[derive(Debug, Clone, PartialEq, Eq)]
pub struct ClaimConflict {
    pub worker: String,
    pub short_id: String,
    pub mine: String,
    pub theirs: String,
}

/// `(worker, short id, mine, theirs)`.
pub open spec fn conflict_view(c: ClaimConflict) -> (Seq<char>, Seq<char>, Seq<char>, Seq<char>) {
    (c.worker@, c.short_id@, c.mine@, c.theirs@)
}

pub open spec fn conflicts_view(v: Seq<ClaimConflict>) -> Seq<(Seq<char>, Seq<char>, Seq<char>, Seq<char>)> {
    v.map_values(|c: ClaimConflict| conflict_view(c))
}

/// Which relation between one of mine and one of theirs is a conflict.
pub enum ConflictTest {
    /// Two claims overlap.
    Claims,
    /// A changed file lies under their claim.
    ChangedFiles,
}

pub open spec fn conflicting(test: ConflictTest, mine: Seq<char>, theirs: Seq<char>) -> bool {
    match test {
        ConflictTest::Claims => claims_overlap(mine, theirs),
        ConflictTest::ChangedFiles => path_matches(theirs, mine),
    }
}

/// The conflicts of `mine` with the claims of one worker, in order.
pub open spec fn worker_conflicts(
    test: ConflictTest,
    mine: Seq<Seq<char>>,
    w: WorkerView,
) -> Seq<(Seq<char>, Seq<char>, Seq<char>, Seq<char>)>
    decreases mine.len(),
{
    if mine.len() == 0 {
        Seq::empty()
    } else {
        worker_conflicts(test, mine.drop_last(), w) + claim_hits(test, mine.last(), w, w.claims)
    }
}

pub open spec fn claim_hits(
    test: ConflictTest,
    own: Seq<char>,
    w: WorkerView,
    theirs: Seq<Seq<char>>,
) -> Seq<(Seq<char>, Seq<char>, Seq<char>, Seq<char>)>
    decreases theirs.len(),
{
    if theirs.len() == 0 {
        Seq::empty()
    } else {
        let r = claim_hits(test, own, w, theirs.drop_last());
        if conflicting(test, own, theirs.last()) {
            r.push((w.name, short_id_of(w.id), own, theirs.last()))
        } else {
            r
        }
    }
}

/// Conflicts with every other active (working or blocked) worker, worker by
/// worker, then by my entry, then by their claim.
pub open spec fn all_conflicts(
    test: ConflictTest,
    mine: Seq<Seq<char>>,
    me: u128,
    ws: Seq<WorkerView>,
) -> Seq<(Seq<char>, Seq<char>, Seq<char>, Seq<char>)>
    decreases ws.len(),
{
    if ws.len() == 0 {
        Seq::empty()
    } else {
        let r = all_conflicts(test, mine, me, ws.drop_last());
        let w = ws.last();
        if w.id == me || !status_active(w.status) {
            r
        } else {
            r + worker_conflicts(test, mine, w)
        }
    }
}

pub open spec fn workers_view(v: Seq<Worker>) -> Seq<WorkerView> {
    v.map_values(|w: Worker| w@)
}

fn conflicting_exec(test: &ConflictTest, mine: &str, theirs: &str) -> (r: bool)
    ensures
        r == conflicting(*test, mine@, theirs@),
{
    match test {
        ConflictTest::Claims => overlaps(mine, theirs),
        ConflictTest::ChangedFiles => crate::model::claim::matches(theirs, mine),
    }
}

fn find_conflicts(mine: &[String], me: u128, workers: &[Worker], test: ConflictTest) -> (r: Vec<ClaimConflict>)
    ensures
        conflicts_view(r@) == all_conflicts(test, sv(mine@), me, workers_view(workers@)),
{
    let ghost ws = workers_view(workers@);
    let ghost m = sv(mine@);
    let mut out: Vec<ClaimConflict> = Vec::new();
    let mut i: usize = 0;
    assert(ws.take(0) =~= Seq::<WorkerView>::empty());
    while i < workers.len()
        invariant
            i <= workers.len(),
            ws == workers_view(workers@),
            m == sv(mine@),
            conflicts_view(out@) == all_conflicts(test, m, me, ws.take(i as int)),
        decreases workers.len() - i,
    {
        assert(ws.take(i + 1).drop_last() =~= ws.take(i as int));
        assert(ws.take(i + 1).last() == workers@[i as int]@);
        let w = &workers[i];
        if w.id != me && w.status.is_active() {
            let ghost base = conflicts_view(out@);
            let sid = short_id(w.id);
            let mut j: usize = 0;
            assert(m.take(0) =~= Seq::<Seq<char>>::empty());
            assert(base + Seq::empty() =~= base);
            while j < mine.len()
                invariant
                    j <= mine.len(),
                    m == sv(mine@),
                    sid@ == short_id_of(w.id),
                    conflicts_view(out@) == base + worker_conflicts(test, m.take(j as int), w@),
                decreases mine.len() - j,
            {
                assert(m.take(j + 1).drop_last() =~= m.take(j as int));
                assert(m.take(j + 1).last() == mine@[j as int]@);
                let ghost mid = conflicts_view(out@);
                let mut k: usize = 0;
                assert(w@.claims.take(0) =~= Seq::<Seq<char>>::empty());
                assert(mid + Seq::empty() =~= mid);
                while k < w.claims.len()
                    invariant
                        k <= w.claims.len(),
                        sid@ == short_id_of(w.id),
                        j < mine.len(),
                        conflicts_view(out@) == mid + claim_hits(test, mine@[j as int]@, w@, w@.claims.take(k as int)),
                    decreases w.claims.len() - k,
                {
                    assert(w@.claims.take(k + 1).drop_last() =~= w@.claims.take(k as int));
                    assert(w@.claims.take(k + 1).last() == w.claims@[k as int]@);
                    if conflicting_exec(&test, mine[j].as_str(), w.claims[k].as_str()) {
                        let c = ClaimConflict {
                            worker: w.name.clone(),
                            short_id: sid.clone(),
                            mine: mine[j].clone(),
                            theirs: w.claims[k].clone(),
                        };
                        let ghost before = out@;
                        out.push(c);
                        assert(conflicts_view(out@) =~= conflicts_view(before).push(conflict_view(c)));
                        assert(conflicts_view(out@) =~= mid + claim_hits(test, mine@[j as int]@, w@, w@.claims.take(k + 1)));
                    }
                    k = k + 1;
                }
                assert(w@.claims.take(w.claims.len() as int) =~= w@.claims);
                assert(conflicts_view(out@) =~= base + worker_conflicts(test, m.take(j + 1), w@));
                j = j + 1;
            }
            assert(m.take(mine.len() as int) =~= m);
        }
        i = i + 1;
    }
    assert(ws.take(workers.len() as int) =~= ws);
    out
}

/// Overlaps between my claims and the claims of other active workers.
pub fn claim_conflicts(mine: &[String], me: u128, workers: &[Worker]) -> (r: Vec<ClaimConflict>)
    ensures
        conflicts_view(r@) == all_conflicts(ConflictTest::Claims, sv(mine@), me, workers_view(workers@)),
{
    find_conflicts(mine, me, workers, ConflictTest::Claims)
}

/// Changed files that lie under a claim of another active worker.
pub fn changed_file_conflicts(changed: &[String], me: u128, workers: &[Worker]) -> (r: Vec<ClaimConflict>)
    ensures
        conflicts_view(r@) == all_conflicts(ConflictTest::ChangedFiles, sv(changed@), me, workers_view(workers@)),
{
    find_conflicts(changed, me, workers, ConflictTest::ChangedFiles)
}

/// `<mine> overlaps with <worker> (<short id>)'s claim <theirs>`.
pub fn conflict_warning(c: &ClaimConflict) -> (s: String)
    ensures
        s@ == c.mine@ + " overlaps with "@ + c.worker@ + " ("@ + c.short_id@ + ")'s claim "@ + c.theirs@,
{
    let mut s = String::new();
    s.append(c.mine.as_str());
    s.append(" overlaps with ");
    s.append(c.worker.as_str());
    s.append(" (");
    s.append(c.short_id.as_str());
    s.append(")'s claim ");
    s.append(c.theirs.as_str());
    s
}

/// Checks every pattern; the first invalid one is the error.
pub fn validate_patterns(patterns: &[String]) -> (r: Result<(), Error>)
    ensures
        r is Ok <==> forall|i: int| 0 <= i < patterns@.len() ==> valid_pattern(#[trigger] patterns@[i]@),
        r matches Err(e) ==> exists|i: int| 0 <= i < patterns@.len() && !valid_pattern(#[trigger] patterns@[i]@)
            && (forall|j: int| 0 <= j < i ==> valid_pattern(#[trigger] patterns@[j]@)) && (e matches Error::InvalidConfig(m)
            && m@ == "invalid claim pattern: "@ + spec_debug_str(patterns@[i]@)),
{
    let mut i: usize = 0;
    while i < patterns.len()
        invariant
            i <= patterns.len(),
            forall|j: int| 0 <= j < i ==> valid_pattern(#[trigger] patterns@[j]@),
        decreases patterns.len() - i,
    {
        match validate_pattern(patterns[i].as_str()) {
            Ok(()) => {},
            Err(e) => {
                return Err(e);
            },
        }
        i = i + 1;
    }
    Ok(())
}

/// `context diverged (<ahead> ahead, <behind> behind); run `ctx-sync sync``.
pub fn diverged_warning(ahead: u32, behind: u32) -> (s: String)
    ensures
        s@ == "context diverged ("@ + decimal(ahead as nat) + " ahead, "@ + decimal(behind as nat)
            + " behind); run `ctx-sync sync`"@,
{
    let mut s = String::new();
    s.append("context diverged (");
    let a = u64_decimal(ahead as u64);
    s.append(a.as_str());
    s.append(" ahead, ");
    let b = u64_decimal(behind as u64);
    s.append(b.as_str());
    s.append(" behind); run `ctx-sync sync`");
    s
}

/// Whether `v` holds an element equal to `x`.
pub open spec fn has_item(v: Seq<Seq<char>>, x: Seq<char>) -> bool {
    exists|i: int| 0 <= i < v.len() && v[i] == x
}

/// Claims after adding `new` (each once, in order) to `current`.
pub open spec fn add_claims(current: Seq<Seq<char>>, new: Seq<Seq<char>>) -> Seq<Seq<char>>
    decreases new.len(),
{
    if new.len() == 0 {
        current
    } else {
        let r = add_claims(current, new.drop_last());
        if has_item(r, new.last()) {
            r
        } else {
            r.push(new.last())
        }
    }
}

/// Claims without those named in `names`.
pub open spec fn release_claims(current: Seq<Seq<char>>, names: Seq<Seq<char>>) -> Seq<Seq<char>>
    decreases current.len(),
{
    if current.len() == 0 {
        current
    } else {
        let r = release_claims(current.drop_last(), names);
        if has_item(names, current.last()) {
            r
        } else {
            r.push(current.last())
        }
    }
}

/// The claims after a `claim` command.
pub open spec fn claims_after(current: Seq<Seq<char>>, input: ClaimInput) -> Seq<Seq<char>> {
    if input.release {
        if input.patterns@.len() == 0 {
            Seq::empty()
        } else {
            release_claims(current, sv(input.patterns@))
        }
    } else {
        add_claims(current, sv(input.patterns@))
    }
}

fn contains_str(v: &Vec<String>, x: &String) -> (r: bool)
    ensures
        r == has_item(sv(v@), x@),
{
    let mut i: usize = 0;
    while i < v.len()
        invariant
            i <= v.len(),
            forall|j: int| 0 <= j < i ==> sv(v@)[j] != x@,
        decreases v.len() - i,
    {
        if v[i] == *x {
            assert(sv(v@)[i as int] == x@);
            return true;
        }
        i = i + 1;
    }
    false
}

fn updated_claims(current: &Vec<String>, input: &ClaimInput) -> (r: Vec<String>)
    ensures
        sv(r@) == claims_after(sv(current@), *input),
{
    let ghost start = sv(current@);
    if input.release {
        if input.patterns.len() == 0 {
            let r: Vec<String> = Vec::new();
            assert(sv(r@) =~= Seq::<Seq<char>>::empty());
            r
        } else {
            let mut kept: Vec<String> = Vec::new();
            let mut i: usize = 0;
            assert(start.take(0) =~= Seq::<Seq<char>>::empty());
            while i < current.len()
                invariant
                    i <= current.len(),
                    start == sv(current@),
                    sv(kept@) == release_claims(start.take(i as int), sv(input.patterns@)),
                decreases current.len() - i,
            {
                assert(start.take(i + 1).drop_last() =~= start.take(i as int));
                if !contains_str(&input.patterns, &current[i]) {
                    let c = current[i].clone();
                    let ghost before = kept@;
                    kept.push(c);
                    assert(sv(kept@) =~= sv(before).push(c@));
                }
                i = i + 1;
            }
            assert(start.take(current.len() as int) =~= start);
            kept
        }
    } else {
        append_new(current, &input.patterns)
    }
}

/// `current` followed by each item of `new` that it does not hold yet.
pub fn append_new(current: &Vec<String>, new: &Vec<String>) -> (r: Vec<String>)
    ensures
        sv(r@) == add_claims(sv(current@), sv(new@)),
{
    let ghost start = sv(current@);
    let mut items = copy_strings(current);
    let mut i: usize = 0;
    assert(sv(new@).take(0) =~= Seq::<Seq<char>>::empty());
    while i < new.len()
        invariant
            i <= new.len(),
            start == sv(current@),
            sv(items@) == add_claims(start, sv(new@).take(i as int)),
        decreases new.len() - i,
    {
        assert(sv(new@).take(i + 1).drop_last() =~= sv(new@).take(i as int));
        if !contains_str(&items, &new[i]) {
            let c = new[i].clone();
            let ghost before = items@;
            items.push(c);
            assert(sv(items@) =~= sv(before).push(c@));
        }
        i = i + 1;
    }
    assert(sv(new@).take(new.len() as int) =~= sv(new@));
    items
}

/// The worker after a `claim`: its name is the registered one, its claims
/// are updated and it was updated `now`.
pub fn apply_claim(worker: Worker, name: &str, input: &ClaimInput, now: Timestamp) -> (r: Worker)
    ensures
        r@ == (WorkerView {
            name: name@,
            claims: claims_after(old_claims(worker), *input),
            last_updated: now,
            ..worker@
        }),
{
    let claims = updated_claims(&worker.claims, input);
    let mut w = worker;
    w.name = String::from_str(name);
    w.claims = claims;
    w.last_updated = now;
    w
}

pub open spec fn old_claims(w: Worker) -> Seq<Seq<char>> {
    sv(w.claims@)
}

#[derive(Debug, Clone)]
pub struct ClaimOutcome {
    pub claims: Vec<String>,
    pub conflicts: Vec<ClaimConflict>,
    pub committed: Option<String>,
    pub sync: Option<SyncOutcome>,
    pub warnings: Vec<String>,
}

/// `ctx-sync: claim <name>`.
pub fn claim_commit_message(name: &str) -> (r: String)
    ensures
        r@ == "ctx-sync: claim "@ + name@,
{
    let mut s = String::new();
    s.append("ctx-sync: claim ");
    s.append(name);
    s
}

/// Whether no item occurs twice.
pub open spec fn no_duplicates(v: Seq<Seq<char>>) -> bool {
    forall|i: int, j: int| 0 <= i < j < v.len() ==> v[i] != v[j]
}

/// Adding items keeps the current ones in front, adds each new one, and
/// adds nothing twice.
pub proof fn lemma_add_claims(current: Seq<Seq<char>>, new: Seq<Seq<char>>)
    ensures
        add_claims(current, new).len() >= current.len(),
        add_claims(current, new).take(current.len() as int) == current,
        forall|i: int| 0 <= i < new.len() ==> has_item(add_claims(current, new), #[trigger] new[i]),
        forall|i: int| 0 <= i < add_claims(current, new).len() ==> (has_item(current, #[trigger] add_claims(current, new)[i])
            || has_item(new, add_claims(current, new)[i])),
        no_duplicates(current) ==> no_duplicates(add_claims(current, new)),
    decreases new.len(),
{
    if new.len() == 0 {
        assert(current.take(current.len() as int) =~= current);
        assert forall|i: int| 0 <= i < current.len() implies has_item(current, #[trigger] current[i]) by {}
    } else {
        let w = new.drop_last();
        let x = new.last();
        lemma_add_claims(current, w);
        let r = add_claims(current, w);
        if !has_item(r, x) {
            let r2 = r.push(x);
            assert(r2.take(current.len() as int) =~= r.take(current.len() as int));
            assert forall|i: int| 0 <= i < new.len() implies has_item(r2, #[trigger] new[i]) by {
                if i < w.len() {
                    assert(new[i] == w[i]);
                    assert(has_item(r, w[i]));
                    let k = choose|k: int| 0 <= k < r.len() && r[k] == w[i];
                    assert(r2[k] == r[k]);
                } else {
                    assert(r2[r.len() as int] == x);
                }
            }
            assert forall|i: int| 0 <= i < r2.len() implies (has_item(current, #[trigger] r2[i]) || has_item(new, r2[i])) by {
                if i < r.len() {
                    assert(r2[i] == r[i]);
                    if has_item(w, r[i]) {
                        let k = choose|k: int| 0 <= k < w.len() && w[k] == r[i];
                        assert(new[k] == w[k]);
                    }
                } else {
                    assert(new[new.len() - 1] == x);
                }
            }
        } else {
            assert forall|i: int| 0 <= i < new.len() implies has_item(r, #[trigger] new[i]) by {
                if i < w.len() {
                    assert(new[i] == w[i]);
                }
            }
            assert forall|i: int| 0 <= i < r.len() implies (has_item(current, #[trigger] r[i]) || has_item(new, r[i])) by {
                if has_item(w, r[i]) {
                    let k = choose|k: int| 0 <= k < w.len() && w[k] == r[i];
                    assert(new[k] == w[k]);
                }
            }
        }
    }
}

} // verus!
