//! Which decisions a diverged worktree adds to the remote snapshot, stated
//! over every pair of decision lists.

use vstd::prelude::*;

use crate::model::decision::DecisionView;
use crate::ops::agent::{add_missing, has_decision};

verus! {

/// No two decisions of `ds` share an ID.
pub open spec fn ids_unique(ds: Seq<DecisionView>) -> bool {
    forall|a: int, b: int| 0 <= a < b < ds.len() ==> ds[a].id != ds[b].id
}

/// Merging keeps the remote decisions in front, adds only local decisions
/// whose ID no remote decision has (nor one added before), adds every local
/// ID that is missing, and so lists each ID once when the remote does.
pub proof fn lemma_merge_adds_missing_ids(remote: Seq<DecisionView>, local: Seq<DecisionView>)
    ensures
        add_missing(remote, local).len() >= remote.len(),
        add_missing(remote, local).take(remote.len() as int) == remote,
        forall|k: int| remote.len() <= k < add_missing(remote, local).len() ==> local.contains(
            #[trigger] add_missing(remote, local)[k],
        ) && forall|j: int| 0 <= j < remote.len() ==> remote[j].id != add_missing(remote, local)[k].id,
        forall|i: int| 0 <= i < local.len() ==> exists|k: int| 0 <= k < add_missing(remote, local).len()
            && #[trigger] add_missing(remote, local)[k].id == (#[trigger] local[i]).id,
        forall|a: int, b: int| 0 <= a < b < add_missing(remote, local).len() && b >= remote.len() ==> add_missing(
            remote,
            local,
        )[a].id != add_missing(remote, local)[b].id,
        ids_unique(remote) ==> ids_unique(add_missing(remote, local)),
    decreases local.len(),
{
    let r = add_missing(remote, local);
    if local.len() == 0 {
        assert(remote.take(remote.len() as int) =~= remote);
    } else {
        let d = local.drop_last();
        let x = local.last();
        lemma_merge_adds_missing_ids(remote, d);
        let p = add_missing(remote, d);
        assert forall|k: int| remote.len() <= k < p.len() implies local.contains(#[trigger] p[k]) by {
            let i = choose|i: int| 0 <= i < d.len() && d[i] == p[k];
            assert(local[i] == d[i]);
        }
        if has_decision(p, x.id) {
            assert(r == p);
            assert forall|i: int| 0 <= i < local.len() implies exists|k: int| 0 <= k < r.len()
                && #[trigger] r[k].id == (#[trigger] local[i]).id by {
                if i < d.len() {
                    assert(local[i] == d[i]);
                    let k = choose|k: int| 0 <= k < p.len() && #[trigger] p[k].id == (#[trigger] d[i]).id;
                    assert(r[k].id == local[i].id);
                } else {
                    let k = choose|k: int| 0 <= k < p.len() && p[k].id == x.id;
                    assert(r[k].id == local[i].id);
                }
            }
        } else {
            assert(r == p.push(x));
            assert(r.take(remote.len() as int) =~= p.take(remote.len() as int));
            assert(local.contains(x)) by {
                assert(local[local.len() - 1] == x);
            }
            assert forall|k: int| remote.len() <= k < r.len() implies local.contains(#[trigger] r[k])
                && forall|j: int| 0 <= j < remote.len() ==> remote[j].id != r[k].id by {
                if k < p.len() {
                    assert(r[k] == p[k]);
                } else {
                    assert(r[k] == x);
                    assert forall|j: int| 0 <= j < remote.len() implies remote[j].id != r[k].id by {
                        assert(p.take(remote.len() as int)[j] == p[j]);
                    }
                }
            }
            assert forall|i: int| 0 <= i < local.len() implies exists|k: int| 0 <= k < r.len()
                && #[trigger] r[k].id == (#[trigger] local[i]).id by {
                if i < d.len() {
                    assert(local[i] == d[i]);
                    let k = choose|k: int| 0 <= k < p.len() && #[trigger] p[k].id == (#[trigger] d[i]).id;
                    assert(r[k] == p[k]);
                } else {
                    assert(r[p.len() as int] == x);
                }
            }
            assert forall|a: int, b: int| 0 <= a < b < r.len() && b >= remote.len() implies r[a].id != r[b].id by {
                if b < p.len() {
                    assert(r[a] == p[a] && r[b] == p[b]);
                } else {
                    assert(r[a] == p[a]);
                }
            }
            if ids_unique(remote) {
                assert forall|a: int, b: int| 0 <= a < b < r.len() implies r[a].id != r[b].id by {
                    if b < p.len() {
                        assert(r[a] == p[a] && r[b] == p[b]);
                    } else {
                        assert(r[a] == p[a]);
                    }
                }
            }
        }
    }
}

} // verus!
