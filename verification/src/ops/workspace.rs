//! An opened project: which attached project a `.ctx-sync.toml` belongs to
//! on this machine. Finding and reading the files happen outside the
//! library.

use vstd::prelude::*;

use crate::error::Error;
use crate::state::index::{index_map, index_wf, Index};
use crate::state::local::LocalProject;
use crate::text::{chars_of, str_eq};

verus! {

/// The error when this machine has no state for the project's Gist.
pub open spec fn not_attached_text(gist_id: Seq<char>) -> Seq<char> {
    "this machine is not attached to gist "@ + gist_id + "; run `ctx-sync attach "@ + gist_id + "`"@
}

pub fn not_attached_error(gist_id: &str) -> (e: Error)
    ensures
        e matches Error::InvalidConfig(m) && m@ == not_attached_text(gist_id@),
{
    let mut m = String::new();
    m.append("this machine is not attached to gist ");
    m.append(gist_id);
    m.append("; run `ctx-sync attach ");
    m.append(gist_id);
    m.append("`");
    Error::InvalidConfig(m)
}

/// The project the index records for the Gist.
pub fn project_for_gist(index: &Index, gist_id: &str) -> (r: Result<u128, Error>)
    requires
        index_wf(index.projects@),
    ensures
        index_map(index.projects@).contains_key(gist_id@) ==> r == Ok::<u128, Error>(index_map(index.projects@)[gist_id@]),
        !index_map(index.projects@).contains_key(gist_id@) ==> (r matches Err(Error::InvalidConfig(m)) && m@
            == not_attached_text(gist_id@)),
{
    match index.get(gist_id) {
        Some(p) => Ok(p),
        None => Err(not_attached_error(gist_id)),
    }
}

/// The local state of the project, which must be for the same Gist.
pub fn check_local(local: Option<LocalProject>, gist_id: &str) -> (r: Result<LocalProject, Error>)
    ensures
        match local {
            Some(l) => if l.gist_id@ == gist_id@ {
                r == Ok::<LocalProject, Error>(l)
            } else {
                r matches Err(Error::InvalidConfig(m)) && m@ == not_attached_text(gist_id@)
            },
            None => r matches Err(Error::InvalidConfig(m)) && m@ == not_attached_text(gist_id@),
        },
{
    match local {
        Some(l) => if str_eq(gist_id, &chars_of(l.gist_id.as_str())) {
            Ok(l)
        } else {
            Err(not_attached_error(gist_id))
        },
        None => Err(not_attached_error(gist_id)),
    }
}

/// The error when the worktree has no worker identity.
pub fn unregistered_error() -> (e: Error)
    ensures
        e matches Error::InvalidConfig(m) && m@ == "worker is not registered; run `ctx-sync register <name>`"@,
{
    Error::InvalidConfig(String::from_str("worker is not registered; run `ctx-sync register <name>`"))
}

} // verus!
