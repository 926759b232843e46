//! Verified core of ctx-sync.
//!
//! ctx-sync shares the development context (project goals, architecture,
//! decisions and worker state) between AI coding agents through a Git
//! repository hosted as a GitHub Gist. This crate holds the formats, rules
//! and decisions; the I/O around them lives in the application.

pub mod bootstrap;
pub mod clock;
pub mod config;
pub mod error;
pub mod gh;
pub mod gist_id;
pub mod git;
pub mod ids;
pub mod text;

pub use error::Error;
pub mod model;
pub mod ops;
pub mod order;
pub mod repo_info;
pub mod secrets;
pub mod store;
pub mod state;
