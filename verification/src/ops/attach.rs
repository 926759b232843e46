//! `attach`: connect this project and machine to an existing ctx-sync Gist.
//!
//! Cloning, moving the clone into place and saving the local state happen
//! outside the library; the checks and the messages are here.

use vstd::prelude::*;

use crate::error::Error;
use crate::text::{chars_of, str_eq};

verus! {

#[derive(Debug, Clone)]
pub struct AttachOutcome {
    pub project_id: u128,
    pub project_name: String,
    pub gist_id: String,
    /// Whether `.ctx-sync.toml` was newly written.
    pub config_written: bool,
    pub revision: String,
}

/// A project whose `.ctx-sync.toml` names another Gist cannot be attached.
pub fn check_attached_gist(gist_id: &str, configured: Option<&str>) -> (r: Result<(), Error>)
    ensures
        match configured {
            Some(c) => if c@ == gist_id@ {
                r is Ok
            } else {
                r matches Err(Error::InvalidConfig(m)) && m@ == "this project is already attached to gist "@ + c@
            },
            None => r is Ok,
        },
{
    match configured {
        Some(c) => if str_eq(c, &chars_of(gist_id)) {
            Ok(())
        } else {
            let mut m = String::new();
            m.append("this project is already attached to gist ");
            m.append(c);
            Err(Error::InvalidConfig(m))
        },
        None => Ok(()),
    }
}

/// The Gist has no `00-meta.json`.
pub fn missing_meta_error(gist_id: &str) -> (e: Error)
    ensures
        e matches Error::InvalidConfig(m) && m@ == "gist "@ + gist_id@
            + " is not a ctx-sync context (00-meta.json not found)"@,
{
    let mut m = String::new();
    m.append("gist ");
    m.append(gist_id);
    m.append(" is not a ctx-sync context (00-meta.json not found)");
    Error::InvalidConfig(m)
}

} // verus!
