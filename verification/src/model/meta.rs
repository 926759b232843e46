//! `00-meta.json`: identity and schema version of the context Gist.
//!
//! Reading the JSON into a `Meta` is serde's work and happens outside the
//! library; the checks around it are here.

use vstd::prelude::*;

use crate::clock::{string_result, Timestamp};
use crate::error::Error;
use crate::ids::new_uuid;
use crate::text::{chars_of, decimal, trim, trim_vec, u64_decimal};

verus! {

pub const META_FILE: &'static str = "00-meta.json";

/// Schema version written by this ctx-sync. Used for future migrations.
pub const SCHEMA_VERSION: u32 = 1;

/// Version of ctx-sync.
pub const VERSION: &'static str = "0.1.0";

#[derive(Debug, Clone, PartialEq)]
pub struct Meta {
    pub schema_version: u32,
    pub project_id: u128,
    pub project_name: String,
    pub created_at: Timestamp,
    pub ctx_sync_version: Option<String>,
    pub project_file: Option<String>,
    pub architecture_file: Option<String>,
}

/// What `serde_json::from_str::<serde_json::Value>` and then
/// `get(key)` / `as_u64` give: the number under `key` (`None` when it is
/// absent or not an unsigned integer), or the parse error's text.
pub uninterp spec fn json_field_u64(text: Seq<char>, key: Seq<char>) -> Result<Option<u64>, Seq<char>>;

/// Reads `text` as JSON and returns the unsigned integer under `key`.
#[verifier::external_body]
fn json_u64(text: &str, key: &str) -> (r: Result<Option<u64>, String>)
    ensures
        string_result(r) == json_field_u64(text@, key@),
{
    match serde_json::from_str::<serde_json::Value>(text) {
        Ok(v) => match v.get(key) {
            Some(field) => Ok(field.as_u64()),
            None => Ok(None),
        },
        Err(e) => Err(e.to_string()),
    }
}

/// The error for `00-meta.json`'s schema version, or none.
pub open spec fn schema_problem(json: Seq<char>) -> Option<Seq<char>> {
    match json_field_u64(json, "schema_version"@) {
        Err(e) => Some("invalid configuration: "@ + ("invalid 00-meta.json: "@ + e)),
        Ok(Some(v)) => if v == 0 {
            Some("invalid configuration: "@ + "invalid 00-meta.json: schema_version must be at least 1"@)
        } else if v > 1 {
            Some(
                "invalid configuration: "@ + ("00-meta.json has schema_version "@ + decimal(v as nat)
                    + ", which requires a newer ctx-sync (this version supports 1)"@),
            )
        } else {
            None
        },
        Ok(None) => None,
    }
}

impl Meta {
    /// A new project with a random ID.
    pub fn new(project_name: &str, now: Timestamp) -> (m: Meta)
        ensures
            m.schema_version == SCHEMA_VERSION,
            m.project_name@ == project_name@,
            m.created_at == now,
            m.ctx_sync_version matches Some(v) && v@ == VERSION@,
            m.project_file is None,
            m.architecture_file is None,
    {
        Meta {
            schema_version: SCHEMA_VERSION,
            project_id: new_uuid(),
            project_name: String::from_str(project_name),
            created_at: now,
            ctx_sync_version: Some(String::from_str(VERSION)),
            project_file: None,
            architecture_file: None,
        }
    }

    /// Checks the text before it is read as a `Meta`: it must be JSON, and a
    /// `schema_version` it holds must be 1 (a newer schema may not read at all).
    /// Every failure is `InvalidConfig`.
    pub fn check_schema(json: &str) -> (r: Result<(), Error>)
        ensures
            match r {
                Ok(()) => schema_problem(json@) is None,
                Err(e) => schema_problem(json@) matches Some(m) && (e matches Error::InvalidConfig(t)
                    && "invalid configuration: "@ + t@ == m),
            },
    {
        match json_u64(json, "schema_version") {
            Err(e) => {
                let mut m = String::new();
                m.append("invalid 00-meta.json: ");
                m.append(e.as_str());
                Err(Error::InvalidConfig(m))
            },
            Ok(Some(v)) => {
                if v == 0 {
                    Err(
                        Error::InvalidConfig(
                            String::from_str("invalid 00-meta.json: schema_version must be at least 1"),
                        ),
                    )
                } else if v > 1 {
                    let mut m = String::new();
                    m.append("00-meta.json has schema_version ");
                    let d = u64_decimal(v);
                    m.append(d.as_str());
                    m.append(", which requires a newer ctx-sync (this version supports 1)");
                    Err(Error::InvalidConfig(m))
                } else {
                    Ok(())
                }
            },
            Ok(None) => Ok(()),
        }
    }

    /// Checks a `Meta` read from JSON: the project name must not be blank.
    pub fn check(&self) -> (r: Result<(), Error>)
        ensures
            r is Ok <==> trim(self.project_name@).len() > 0,
            r matches Err(e) ==> (e matches Error::InvalidConfig(t) && t@
                == "invalid 00-meta.json: project_name is empty"@),
    {
        let t = trim_vec(&chars_of(self.project_name.as_str()));
        if t.len() == 0 {
            Err(Error::InvalidConfig(String::from_str("invalid 00-meta.json: project_name is empty")))
        } else {
            Ok(())
        }
    }
}

} // verus!
