//! The decisions behind the CLI commands. Reading, writing and talking to
//! Git happen around them, outside the library.

pub mod agent;
pub mod agent_law;
pub mod agent_instructions;
pub mod attach;
pub mod bootstrap;
pub mod claim;
pub mod claim_law;
pub mod conflict_resolve;
pub mod decision;
pub mod handoff;
pub mod init;
pub mod prune;
pub mod register;
pub mod runtime;
pub mod workspace;
