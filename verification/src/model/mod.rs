//! Files stored in the context Gist.

pub mod claim;
pub mod decision;
pub mod decision_law;
pub mod decisions;
pub mod docs;
pub mod md;
pub mod md_law;
pub mod md_parsed;
pub mod meta;
pub mod snapshot;
pub mod stale;
pub mod worker;
pub mod worker_law;

pub use docs::{ARCHITECTURE_FILE, PROJECT_FILE};
pub use md::{MdDoc, MdSection};
