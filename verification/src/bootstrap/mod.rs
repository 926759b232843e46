//! `bootstrap`: rule-based collection of initial context candidates from an
//! existing repository. No language model is involved, and nothing collected
//! here is turned into a decision.

pub mod docs;
pub mod manifest;
pub mod manifest_law;
pub mod repo;
pub mod report;
pub mod report_law;

pub use report::{BootstrapReport, Certainty, Finding};
