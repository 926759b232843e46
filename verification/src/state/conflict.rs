//! `conflict.json`: the last context conflict detected by `sync`.
//!
//! `status` shows it, and `conflict show` / `conflict resolve` read it.
//! Reading and writing the file happen outside the library.

use vstd::prelude::*;

use crate::clock::Timestamp;

verus! {

#[derive(Debug, Clone, PartialEq)]
pub struct ConflictRecord {
    pub detected_at: Timestamp,
    /// Conflicting files (flat names inside the Gist).
    pub files: Vec<String>,
    /// Local HEAD before the rebase (full hash).
    pub local_head: String,
    /// `origin/<branch>` the rebase was onto (full hash).
    pub remote_head: String,
}

} // verus!
