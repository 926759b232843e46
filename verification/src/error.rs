//! Error type shared by every ctx-sync operation.
//!
//! Every error maps to a stable process exit code so that AI agents can
//! react to failures without parsing messages.

use vstd::prelude::*;

use crate::text::{join, sv};

verus! {

#[verifier::external_type_specification]
#[verifier::external_body]
pub struct ExIoError(std::io::Error);

/// Errors returned by ctx-sync.
#[derive(Debug)]
pub enum Error {
    General(String),
    ContextConflict { files: Vec<String> },
    Auth(String),
    InvalidConfig(String),
    Remote(String),
    SyncRetryExceeded,
    Io(std::io::Error),
}

/// Exit codes: 1 general, 2 context conflict, 3 authentication,
/// 4 invalid configuration, 5 remote.
pub open spec fn spec_exit_code(e: Error) -> u8 {
    match e {
        Error::General(_) | Error::Io(_) => 1,
        Error::ContextConflict { .. } => 2,
        Error::Auth(_) => 3,
        Error::InvalidConfig(_) => 4,
        Error::Remote(_) | Error::SyncRetryExceeded => 5,
    }
}

/// `Display` text of an I/O error (`<std::io::Error as Display>::fmt`).
/// It depends on the operating system, so nothing is stated of it.
#[verifier::external_body]
fn io_error_text(e: &std::io::Error) -> String {
    format!("{e}")
}

impl Error {
    /// Stable process exit code for this error.
    pub fn exit_code(&self) -> (code: u8)
        ensures
            code == spec_exit_code(*self),
    {
        match self {
            Error::General(_) | Error::Io(_) => 1,
            Error::ContextConflict { .. } => 2,
            Error::Auth(_) => 3,
            Error::InvalidConfig(_) => 4,
            Error::Remote(_) | Error::SyncRetryExceeded => 5,
        }
    }

    /// The message shown to the user.
    pub fn message(&self) -> (m: String)
        ensures
            match *self {
                Error::General(s) => m@ == s@,
                Error::ContextConflict { files } => m@ == "Context conflict detected:\n\n"@ + join(
                    sv(files@),
                    "\n"@,
                ),
                Error::Auth(s) => m@ == "authentication error: "@ + s@,
                Error::InvalidConfig(s) => m@ == "invalid configuration: "@ + s@,
                Error::Remote(s) => m@ == "remote error: "@ + s@,
                Error::SyncRetryExceeded => m@ == "sync failed: retry limit exceeded"@,
                Error::Io(_) => true,
            },
    {
        match self {
            Error::General(s) => s.clone(),
            Error::ContextConflict { files } => {
                let mut m = String::new();
                m.append("Context conflict detected:\n\n");
                let list = crate::text::join_strings(files, "\n");
                m.append(list.as_str());
                m
            },
            Error::Auth(s) => {
                let mut m = String::new();
                m.append("authentication error: ");
                m.append(s.as_str());
                m
            },
            Error::InvalidConfig(s) => {
                let mut m = String::new();
                m.append("invalid configuration: ");
                m.append(s.as_str());
                m
            },
            Error::Remote(s) => {
                let mut m = String::new();
                m.append("remote error: ");
                m.append(s.as_str());
                m
            },
            Error::SyncRetryExceeded => {
                let mut m = String::new();
                m.append("sync failed: retry limit exceeded");
                m
            },
            Error::Io(e) => {
                let mut m = String::new();
                m.append("io error: ");
                let t = io_error_text(e);
                m.append(t.as_str());
                m
            },
        }
    }
}

} // verus!
