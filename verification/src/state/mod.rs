//! Local state kept outside of the project directory.

pub mod conflict;
pub mod index;
pub mod local;
pub mod paths;
pub mod worker;

pub use conflict::ConflictRecord;
pub use index::Index;
pub use local::{LocalProject, Protocol};
pub use paths::{ProjectState, StateRoot};
pub use worker::{validate_worker_name, WorkerIdentity};
