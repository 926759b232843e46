//! How this machine connects to a project's Gist.

use vstd::prelude::*;

use crate::clock::Timestamp;

verus! {

/// Protocol used to clone and push the Gist.
#[derive(Debug, Clone, Copy, PartialEq, Eq, Structural)]
pub enum Protocol {
    Https,
    Ssh,
}

impl Default for Protocol {
    fn default() -> (p: Protocol)
        ensures
            p == Protocol::Https,
    {
        Protocol::Https
    }
}

impl Protocol {
    /// The lowercase name used in `local.json`.
    pub fn as_str(&self) -> (r: &'static str)
        ensures
            r@ == (match *self {
                Protocol::Https => "https"@,
                Protocol::Ssh => "ssh"@,
            }),
    {
        match self {
            Protocol::Https => "https",
            Protocol::Ssh => "ssh",
        }
    }
}

/// `local.json`: how this machine is attached to a project's Gist.
#[derive(Debug, Clone, PartialEq)]
pub struct LocalProject {
    pub gist_id: String,
    pub protocol: Protocol,
    pub attached_at: Timestamp,
}

} // verus!
