//! Project configuration file (`.ctx-sync.toml`).
//!
//! The file is committed to the project repository. It must never hold
//! credentials, so the schema is fixed. Reading and writing the TOML happen
//! outside the library; the checks are here.

use vstd::prelude::*;

use crate::error::Error;
use crate::text::{chars_of, decimal, trim, trim_vec, u64_decimal};

verus! {

pub const CONFIG_FILE: &'static str = ".ctx-sync.toml";

pub const CONFIG_VERSION: u32 = 1;

#[derive(Debug, Clone, PartialEq, Eq)]
pub struct ProjectConfig {
    pub version: u32,
    pub remote: RemoteConfig,
    pub context: ContextFiles,
}

#[derive(Debug, Clone, PartialEq, Eq)]
pub struct RemoteConfig {
    pub kind: RemoteKind,
    pub id: String,
}

#[derive(Debug, Clone, Copy, PartialEq, Eq, Structural)]
pub enum RemoteKind {
    Gist,
}

#[derive(Debug, Clone, PartialEq, Eq)]
pub struct ContextFiles {
    pub project: String,
    pub architecture: String,
}

impl Default for ContextFiles {
    fn default() -> (c: ContextFiles)
        ensures
            c.project@ == "10-project.md"@,
            c.architecture@ == "20-architecture.md"@,
    {
        ContextFiles {
            project: String::from_str("10-project.md"),
            architecture: String::from_str("20-architecture.md"),
        }
    }
}

/// The problem with a configuration, if any.
pub open spec fn config_problem(c: ProjectConfig) -> Option<Seq<char>> {
    if c.version != 1 {
        Some(
            "unsupported .ctx-sync.toml version "@ + decimal(c.version as nat) + " (expected 1)"@,
        )
    } else if trim(c.remote.id@).len() == 0 {
        Some("remote.id in .ctx-sync.toml is empty"@)
    } else if c.context.project@ != "10-project.md"@ || c.context.architecture@
        != "20-architecture.md"@ {
        Some("custom context file names are not supported in v0.1"@)
    } else {
        None
    }
}

impl ProjectConfig {
    pub fn new_gist(gist_id: &str) -> (c: ProjectConfig)
        ensures
            c.version == CONFIG_VERSION,
            c.remote.kind == RemoteKind::Gist,
            c.remote.id@ == gist_id@,
            c.context.project@ == "10-project.md"@,
            c.context.architecture@ == "20-architecture.md"@,
    {
        ProjectConfig {
            version: CONFIG_VERSION,
            remote: RemoteConfig { kind: RemoteKind::Gist, id: String::from_str(gist_id) },
            context: ContextFiles::default(),
        }
    }

    /// Checks a configuration that was read: version 1, a remote ID and the
    /// default context file names. Every failure is `InvalidConfig`.
    pub fn validate(&self) -> (r: Result<(), Error>)
        ensures
            match r {
                Ok(()) => config_problem(*self) is None,
                Err(e) => config_problem(*self) matches Some(m) && (e matches Error::InvalidConfig(t) && t@ == m),
            },
    {
        if self.version != CONFIG_VERSION {
            let mut m = String::new();
            m.append("unsupported .ctx-sync.toml version ");
            let v = u64_decimal(self.version as u64);
            m.append(v.as_str());
            m.append(" (expected 1)");
            return Err(Error::InvalidConfig(m));
        }
        if trim_vec(&chars_of(self.remote.id.as_str())).len() == 0 {
            return Err(Error::InvalidConfig(String::from_str("remote.id in .ctx-sync.toml is empty")));
        }
        let p = self.context.project == String::from_str("10-project.md");
        let a = self.context.architecture == String::from_str("20-architecture.md");
        if !p || !a {
            return Err(
                Error::InvalidConfig(String::from_str("custom context file names are not supported in v0.1")),
            );
        }
        Ok(())
    }
}

} // verus!
