//! What `claim` does to a worker's claims, and which conflicts it reports,
//! stated over every input.

use vstd::prelude::*;

use crate::ids::short_id_of;
use crate::model::claim::{claims_overlap, path_matches};
use crate::model::worker::{WorkerStatus, WorkerView};
use crate::ops::claim::{
    add_claims, all_conflicts, claim_hits, claims_after, release_claims, worker_conflicts, ClaimInput,
    ConflictTest,
};
use crate::text::sv;

verus! {

proof fn lemma_contains_push<A>(s: Seq<A>, x: A, y: A)
    ensures
        s.push(x).contains(y) <==> (s.contains(y) || y == x),
{
    if s.contains(y) {
        let i = choose|i: int| 0 <= i < s.len() && s[i] == y;
        assert(s.push(x)[i] == y);
    }
    if y == x {
        assert(s.push(x)[s.len() as int] == y);
    }
    if s.push(x).contains(y) && y != x {
        let i = choose|i: int| 0 <= i < s.push(x).len() && s.push(x)[i] == y;
        assert(i < s.len());
        assert(s[i] == y);
    }
}

proof fn lemma_contains_concat<A>(a: Seq<A>, b: Seq<A>, y: A)
    ensures
        (a + b).contains(y) <==> (a.contains(y) || b.contains(y)),
{
    if a.contains(y) {
        let i = choose|i: int| 0 <= i < a.len() && a[i] == y;
        assert((a + b)[i] == y);
    }
    if b.contains(y) {
        let i = choose|i: int| 0 <= i < b.len() && b[i] == y;
        assert((a + b)[a.len() + i] == y);
    }
    if (a + b).contains(y) {
        let i = choose|i: int| 0 <= i < (a + b).len() && (a + b)[i] == y;
        if i < a.len() {
            assert(a[i] == y);
        } else {
            assert(b[i - a.len()] == y);
        }
    }
}

/// Each pattern a claim adds is new: it is not among the claims before it.
proof fn lemma_added_are_new(current: Seq<Seq<char>>, new: Seq<Seq<char>>)
    ensures
        forall|a: int, b: int| 0 <= a < b < add_claims(current, new).len() && b >= current.len() ==> add_claims(current, new)[a]
            != add_claims(current, new)[b],
    decreases new.len(),
{
    if new.len() > 0 {
        let p = add_claims(current, new.drop_last());
        lemma_added_are_new(current, new.drop_last());
        crate::ops::claim::lemma_add_claims(current, new.drop_last());
        let x = new.last();
        if !crate::ops::claim::has_item(p, x) {
            let r = p.push(x);
            assert forall|a: int, b: int| 0 <= a < b < r.len() && b >= current.len() implies r[a] != r[b] by {
                if b < p.len() {
                    assert(r[a] == p[a] && r[b] == p[b]);
                } else {
                    assert(r[a] == p[a]);
                    assert(r[b] == x);
                }
            }
        }
    }
}

// ---------------------------------------------------------------------------
// Releasing claims
// ---------------------------------------------------------------------------

/// Releasing named patterns keeps exactly the current claims that are not
/// named, in their order.
pub proof fn lemma_release_keeps_unnamed(current: Seq<Seq<char>>, names: Seq<Seq<char>>)
    ensures
        release_claims(current, names) == current.filter(|c: Seq<char>| !names.contains(c)),
        forall|x: Seq<char>| #[trigger] release_claims(current, names).contains(x) <==> (current.contains(x)
            && !names.contains(x)),
    decreases current.len(),
{
    let pred = |c: Seq<char>| !names.contains(c);
    if current.len() > 0 {
        let w = current.drop_last();
        lemma_release_keeps_unnamed(w, names);
        w.lemma_filter_push(current.last(), pred);
        assert(w.push(current.last()) =~= current);
    } else {
        reveal(Seq::filter);
    }
    let r = current.filter(pred);
    assert forall|x: Seq<char>| #[trigger] r.contains(x) <==> (current.contains(x) && !names.contains(x)) by {
        if r.contains(x) {
            let i = choose|i: int| 0 <= i < r.len() && r[i] == x;
            current.lemma_filter_pred(pred, i);
            current.lemma_filter_contains_rev(pred, x);
        }
        if current.contains(x) && !names.contains(x) {
            let i = choose|i: int| 0 <= i < current.len() && current[i] == x;
            current.lemma_filter_contains(pred, i);
        }
    }
}

/// The claims after `claim`: releasing with no names drops every claim,
/// releasing names keeps the current claims that are not named (in order),
/// and claiming keeps the current claims in front and adds each new pattern
/// that is not there yet.
pub proof fn lemma_claims_after(current: Seq<Seq<char>>, input: ClaimInput)
    ensures
        input.release && input.patterns@.len() == 0 ==> claims_after(current, input).len() == 0,
        input.release && input.patterns@.len() > 0 ==> claims_after(current, input) == current.filter(
            |c: Seq<char>| !sv(input.patterns@).contains(c),
        ),
        input.release ==> forall|x: Seq<char>| #[trigger] claims_after(current, input).contains(x) ==> current.contains(x)
            && !sv(input.patterns@).contains(x),
        !input.release ==> claims_after(current, input).take(current.len() as int) == current,
        !input.release ==> forall|i: int| 0 <= i < input.patterns@.len() ==> claims_after(current, input).contains(
            #[trigger] sv(input.patterns@)[i],
        ),
        !input.release ==> forall|x: Seq<char>| #[trigger] claims_after(current, input).contains(x) ==> current.contains(x)
            || sv(input.patterns@).contains(x),
        !input.release ==> forall|a: int, b: int| 0 <= a < b < claims_after(current, input).len() && b >= current.len()
            ==> claims_after(current, input)[a] != claims_after(current, input)[b],
{
    let names = sv(input.patterns@);
    if input.release {
        if names.len() > 0 {
            lemma_release_keeps_unnamed(current, names);
        }
    } else {
        crate::ops::claim::lemma_add_claims(current, names);
        lemma_added_are_new(current, names);
        let r = claims_after(current, input);
        assert forall|i: int| 0 <= i < names.len() implies r.contains(#[trigger] names[i]) by {
            assert(crate::ops::claim::has_item(r, names[i]));
        }
        assert forall|x: Seq<char>| #[trigger] r.contains(x) implies current.contains(x) || names.contains(x) by {
            let i = choose|i: int| 0 <= i < r.len() && r[i] == x;
            assert(crate::ops::claim::has_item(current, r[i]) || crate::ops::claim::has_item(names, r[i]));
        }
    }
}

// ---------------------------------------------------------------------------
// Conflicts
// ---------------------------------------------------------------------------

/// `t` is the conflict of my entry `own` with the claim `theirs` of worker
/// `w`: the two overlap (for changed files: the file lies under the claim),
/// and `t` names the worker, its short ID, my entry and their claim.
pub open spec fn conflict_entry(
    test: ConflictTest,
    own: Seq<char>,
    w: WorkerView,
    theirs: Seq<char>,
    t: (Seq<char>, Seq<char>, Seq<char>, Seq<char>),
) -> bool {
    &&& match test {
        ConflictTest::Claims => claims_overlap(own, theirs),
        ConflictTest::ChangedFiles => path_matches(theirs, own),
    }
    &&& t == (w.name, short_id_of(w.id), own, theirs)
}

proof fn lemma_hits(test: ConflictTest, own: Seq<char>, w: WorkerView, theirs: Seq<Seq<char>>)
    ensures
        forall|t| #[trigger] claim_hits(test, own, w, theirs).contains(t) <==> exists|j: int|
            0 <= j < theirs.len() && #[trigger] conflict_entry(test, own, w, theirs[j], t),
    decreases theirs.len(),
{
    if theirs.len() > 0 {
        let d = theirs.drop_last();
        let x = theirs.last();
        lemma_hits(test, own, w, d);
        let r = claim_hits(test, own, w, d);
        let tx = (w.name, short_id_of(w.id), own, x);
        assert forall|t| #[trigger] claim_hits(test, own, w, theirs).contains(t) <==> exists|j: int|
            0 <= j < theirs.len() && #[trigger] conflict_entry(test, own, w, theirs[j], t) by {
            lemma_contains_push(r, tx, t);
            if claim_hits(test, own, w, theirs).contains(t) {
                if r.contains(t) {
                    let j = choose|j: int| 0 <= j < d.len() && #[trigger] conflict_entry(test, own, w, d[j], t);
                    assert(d[j] == theirs[j]);
                } else {
                    assert(conflict_entry(test, own, w, theirs[theirs.len() - 1], t));
                }
            }
            if exists|j: int| 0 <= j < theirs.len() && #[trigger] conflict_entry(test, own, w, theirs[j], t) {
                let j = choose|j: int| 0 <= j < theirs.len() && #[trigger] conflict_entry(test, own, w, theirs[j], t);
                if j < d.len() {
                    assert(d[j] == theirs[j]);
                    assert(conflict_entry(test, own, w, d[j], t));
                }
            }
        }
    }
}

proof fn lemma_worker_hits(test: ConflictTest, mine: Seq<Seq<char>>, w: WorkerView)
    ensures
        forall|t| #[trigger] worker_conflicts(test, mine, w).contains(t) <==> exists|i: int, j: int|
            0 <= i < mine.len() && 0 <= j < w.claims.len() && #[trigger] conflict_entry(test, mine[i], w, w.claims[j], t),
    decreases mine.len(),
{
    if mine.len() > 0 {
        let d = mine.drop_last();
        let x = mine.last();
        lemma_worker_hits(test, d, w);
        lemma_hits(test, x, w, w.claims);
        let r = worker_conflicts(test, d, w);
        let h = claim_hits(test, x, w, w.claims);
        assert forall|t| #[trigger] worker_conflicts(test, mine, w).contains(t) <==> exists|i: int, j: int|
            0 <= i < mine.len() && 0 <= j < w.claims.len() && #[trigger] conflict_entry(test, mine[i], w, w.claims[j], t) by {
            lemma_contains_concat(r, h, t);
            if worker_conflicts(test, mine, w).contains(t) {
                if r.contains(t) {
                    let (i, j) = choose|i: int, j: int| 0 <= i < d.len() && 0 <= j < w.claims.len()
                        && #[trigger] conflict_entry(test, d[i], w, w.claims[j], t);
                    assert(d[i] == mine[i]);
                } else {
                    let j = choose|j: int| 0 <= j < w.claims.len() && #[trigger] conflict_entry(test, x, w, w.claims[j], t);
                    assert(conflict_entry(test, mine[mine.len() - 1], w, w.claims[j], t));
                }
            }
            if exists|i: int, j: int| 0 <= i < mine.len() && 0 <= j < w.claims.len()
                && #[trigger] conflict_entry(test, mine[i], w, w.claims[j], t) {
                let (i, j) = choose|i: int, j: int| 0 <= i < mine.len() && 0 <= j < w.claims.len()
                    && #[trigger] conflict_entry(test, mine[i], w, w.claims[j], t);
                if i < d.len() {
                    assert(d[i] == mine[i]);
                    assert(conflict_entry(test, d[i], w, w.claims[j], t));
                } else {
                    assert(conflict_entry(test, x, w, w.claims[j], t));
                }
            }
        }
    }
}

/// A conflict is reported exactly for a pair of one of my entries and a
/// claim of another worker (an ID other than `me`) that is working or
/// blocked, when the two overlap; so my own worker file never conflicts
/// with me.
pub proof fn lemma_conflicts_exactly(test: ConflictTest, mine: Seq<Seq<char>>, me: u128, ws: Seq<WorkerView>)
    ensures
        forall|t| #[trigger] all_conflicts(test, mine, me, ws).contains(t) <==> exists|k: int, i: int, j: int|
            0 <= k < ws.len() && ws[k].id != me && (ws[k].status == WorkerStatus::Working || ws[k].status
                == WorkerStatus::Blocked) && 0 <= i < mine.len() && 0 <= j < ws[k].claims.len()
                && #[trigger] conflict_entry(test, mine[i], ws[k], ws[k].claims[j], t),
        (forall|k: int| 0 <= k < ws.len() ==> (#[trigger] ws[k]).id == me) ==> all_conflicts(test, mine, me, ws).len() == 0,
    decreases ws.len(),
{
    let ac = all_conflicts(test, mine, me, ws);
    if ws.len() > 0 {
        let d = ws.drop_last();
        let w = ws.last();
        lemma_conflicts_exactly(test, mine, me, d);
        lemma_worker_hits(test, mine, w);
        let r = all_conflicts(test, mine, me, d);
        let h = worker_conflicts(test, mine, w);
        let active = w.id != me && (w.status == WorkerStatus::Working || w.status == WorkerStatus::Blocked);
        assert forall|t| #[trigger] ac.contains(t) <==> exists|k: int, i: int, j: int|
            0 <= k < ws.len() && ws[k].id != me && (ws[k].status == WorkerStatus::Working || ws[k].status
                == WorkerStatus::Blocked) && 0 <= i < mine.len() && 0 <= j < ws[k].claims.len()
                && #[trigger] conflict_entry(test, mine[i], ws[k], ws[k].claims[j], t) by {
            lemma_contains_concat(r, h, t);
            if ac.contains(t) {
                if r.contains(t) {
                    let (k, i, j) = choose|k: int, i: int, j: int| 0 <= k < d.len() && d[k].id != me && (d[k].status
                        == WorkerStatus::Working || d[k].status == WorkerStatus::Blocked) && 0 <= i < mine.len()
                        && 0 <= j < d[k].claims.len() && #[trigger] conflict_entry(test, mine[i], d[k], d[k].claims[j], t);
                    assert(d[k] == ws[k]);
                } else {
                    assert(active);
                    let (i, j) = choose|i: int, j: int| 0 <= i < mine.len() && 0 <= j < w.claims.len()
                        && #[trigger] conflict_entry(test, mine[i], w, w.claims[j], t);
                    assert(ws[ws.len() - 1] == w);
                    assert(conflict_entry(test, mine[i], ws[ws.len() - 1], ws[ws.len() - 1].claims[j], t));
                }
            }
            if exists|k: int, i: int, j: int| 0 <= k < ws.len() && ws[k].id != me && (ws[k].status
                == WorkerStatus::Working || ws[k].status == WorkerStatus::Blocked) && 0 <= i < mine.len() && 0 <= j
                < ws[k].claims.len() && #[trigger] conflict_entry(test, mine[i], ws[k], ws[k].claims[j], t) {
                let (k, i, j) = choose|k: int, i: int, j: int| 0 <= k < ws.len() && ws[k].id != me && (ws[k].status
                    == WorkerStatus::Working || ws[k].status == WorkerStatus::Blocked) && 0 <= i < mine.len() && 0 <= j
                    < ws[k].claims.len() && #[trigger] conflict_entry(test, mine[i], ws[k], ws[k].claims[j], t);
                if k < d.len() {
                    assert(d[k] == ws[k]);
                    assert(conflict_entry(test, mine[i], d[k], d[k].claims[j], t));
                } else {
                    assert(ws[k] == w);
                    assert(conflict_entry(test, mine[i], w, w.claims[j], t));
                }
            }
        }
    }
    if forall|k: int| 0 <= k < ws.len() ==> (#[trigger] ws[k]).id == me {
        if ac.len() > 0 {
            assert(ac.contains(ac[0]));
        }
    }
}

/// The conflicts of one entry of mine with a worker's claims: one for each
/// claim it overlaps, in the order of the claims.
pub proof fn lemma_hits_in_order(test: ConflictTest, own: Seq<char>, w: WorkerView, theirs: Seq<Seq<char>>)
    ensures
        claim_hits(test, own, w, theirs) == theirs.filter(
            |c: Seq<char>| match test {
                ConflictTest::Claims => claims_overlap(own, c),
                ConflictTest::ChangedFiles => path_matches(c, own),
            },
        ).map_values(|c: Seq<char>| (w.name, short_id_of(w.id), own, c)),
    decreases theirs.len(),
{
    let pred = |c: Seq<char>| match test {
        ConflictTest::Claims => claims_overlap(own, c),
        ConflictTest::ChangedFiles => path_matches(c, own),
    };
    let f = |c: Seq<char>| (w.name, short_id_of(w.id), own, c);
    if theirs.len() == 0 {
        reveal(Seq::filter);
        assert(theirs.filter(pred).map_values(f) =~= Seq::<(Seq<char>, Seq<char>, Seq<char>, Seq<char>)>::empty());
    } else {
        let d = theirs.drop_last();
        let x = theirs.last();
        lemma_hits_in_order(test, own, w, d);
        d.lemma_filter_push(x, pred);
        assert(d.push(x) =~= theirs);
        if pred(x) {
            assert(d.filter(pred).push(x).map_values(f) =~= d.filter(pred).map_values(f).push(f(x)));
        }
    }
}

} // verus!
