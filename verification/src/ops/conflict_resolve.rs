//! Apply an explicit resolution to a recorded context conflict.
//!
//! Rebasing, reading the merged files and syncing happen outside the
//! library; which strategy a resolution means is decided here.

use vstd::prelude::*;

use crate::error::Error;
use crate::store::gist::RebaseStrategy;
use crate::store::sync::SyncOutcome;
use crate::text::{join, join_strings, sv};

verus! {

pub enum Resolution {
    KeepLocal,
    KeepRemote,
    /// (context file name, path to the merged contents).
    Merged(Vec<(String, String)>),
}

#[derive(Debug, Clone)]
pub struct ResolveOutcome {
    pub resolution: String,
    pub files: Vec<String>,
    pub sync: SyncOutcome,
}

/// Whether `files` holds `f`.
pub open spec fn in_conflict(files: Seq<Seq<char>>, f: Seq<char>) -> bool {
    exists|i: int| 0 <= i < files.len() && files[i] == f
}

/// The first merged file that is not in conflict.
pub open spec fn first_stray(merged: Seq<(String, String)>, files: Seq<Seq<char>>) -> Option<Seq<char>>
    decreases merged.len(),
{
    if merged.len() == 0 {
        None
    } else {
        match first_stray(merged.drop_last(), files) {
            Some(f) => Some(f),
            None => if in_conflict(files, merged.last().0@) {
                None
            } else {
                Some(merged.last().0@)
            },
        }
    }
}

fn holds(files: &Vec<String>, f: &String) -> (r: bool)
    ensures
        r == in_conflict(sv(files@), f@),
{
    let mut i: usize = 0;
    while i < files.len()
        invariant
            i <= files.len(),
            forall|j: int| 0 <= j < i ==> sv(files@)[j] != f@,
        decreases files.len() - i,
    {
        if files[i] == *f {
            assert(sv(files@)[i as int] == f@);
            return true;
        }
        i = i + 1;
    }
    false
}

/// The name of a resolution and the rebase strategy it uses; merged
/// contents are applied on top of the remote side, and each merged file
/// must be one of the conflicted `files`.
pub fn resolution_plan(resolution: &Resolution, files: &Vec<String>) -> (r: Result<(&'static str, RebaseStrategy), Error>)
    ensures
        match resolution {
            Resolution::KeepLocal => (r matches Ok(p) && p.0@ == "keep-local"@ && p.1 == RebaseStrategy::KeepLocal),
            Resolution::KeepRemote => (r matches Ok(p) && p.0@ == "keep-remote"@ && p.1 == RebaseStrategy::KeepRemote),
            Resolution::Merged(merged) => match first_stray(merged@, sv(files@)) {
                Some(f) => (r matches Err(e) && (e matches Error::General(m) && m@ == f + " is not in conflict"@)),
                None => (r matches Ok(p) && p.0@ == "merged"@ && p.1 == RebaseStrategy::KeepRemote),
            },
        },
{
    match resolution {
        Resolution::KeepLocal => Ok(("keep-local", RebaseStrategy::KeepLocal)),
        Resolution::KeepRemote => Ok(("keep-remote", RebaseStrategy::KeepRemote)),
        Resolution::Merged(merged) => {
            let mut i: usize = 0;
            while i < merged.len()
                invariant
                    i <= merged.len(),
                    *resolution == Resolution::Merged(*merged),
                    first_stray(merged@.take(i as int), sv(files@)) is None,
                decreases merged.len() - i,
            {
                assert(merged@.take(i + 1).drop_last() =~= merged@.take(i as int));
                assert(merged@.take(i + 1).last() == merged@[i as int]);
                if !holds(files, &merged[i].0) {
                    let mut m = String::new();
                    m.append(merged[i].0.as_str());
                    m.append(" is not in conflict");
                    proof {
                        assert(first_stray(merged@.take(i + 1), sv(files@)) == Some(merged@[i as int].0@));
                        lemma_stray_stays(merged@, sv(files@), i as int + 1);
                    }
                    return Err(Error::General(m));
                }
                i = i + 1;
            }
            assert(merged@.take(merged.len() as int) =~= merged@);
            Ok(("merged", RebaseStrategy::KeepRemote))
        },
    }
}

proof fn lemma_stray_stays(merged: Seq<(String, String)>, files: Seq<Seq<char>>, k: int)
    requires
        0 <= k <= merged.len(),
        first_stray(merged.take(k), files) is Some,
    ensures
        first_stray(merged, files) == first_stray(merged.take(k), files),
    decreases merged.len() - k,
{
    if k < merged.len() {
        assert(merged.take(k + 1).drop_last() =~= merged.take(k));
        lemma_stray_stays(merged, files, k + 1);
    } else {
        assert(merged.take(k) =~= merged);
    }
}

/// There is no conflict to resolve.
pub fn no_conflict_error() -> (e: Error)
    ensures
        e matches Error::General(m) && m@ == "no context conflict recorded"@,
{
    Error::General(String::from_str("no context conflict recorded"))
}

/// `ctx-sync: resolve conflict in <files>`.
pub fn resolve_commit_message(files: &Vec<String>) -> (r: String)
    ensures
        r@ == "ctx-sync: resolve conflict in "@ + join(sv(files@), ", "@),
{
    let mut s = String::new();
    s.append("ctx-sync: resolve conflict in ");
    let list = join_strings(files, ", ");
    s.append(list.as_str());
    s
}

} // verus!
