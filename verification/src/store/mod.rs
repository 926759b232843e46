//! Storage of the shared context: the decisions of `pull` and `sync`.
//!
//! Git runs outside the library. `sync` commits, fetches, rebases and pushes
//! with optimistic concurrency: there is no distributed lock, and when
//! another worker pushes between our fetch and our push, the push is
//! rejected and the loop starts over. A rebase conflict is never resolved
//! automatically: the rebase is aborted, the conflict is recorded and the
//! command stops.

pub mod gist;
pub mod remote;
pub mod sync;

pub use remote::RemoteSpec;
pub use sync::{LoopResult, PullOutcome, SyncOps, SyncOutcome};
