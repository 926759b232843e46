//! Worker identity of this machine and worktree.

use vstd::prelude::*;

use crate::clock::Timestamp;
use crate::error::Error;
use crate::ids::{new_uuid, short_id, short_id_of};
use crate::text::{char_is_alnum, chars_of, debug_str, is_alnum, spec_debug_str};

verus! {

pub open spec fn name_char(c: char) -> bool {
    is_alnum(c) || c == '.' || c == '_' || c == '-'
}

/// Bytes of a character in UTF-8.
pub open spec fn byte_len(s: Seq<char>) -> int
    decreases s.len(),
{
    if s.len() == 0 {
        0
    } else {
        byte_len(s.drop_last()) + crate::repo_info::utf8_width(s.last())
    }
}

/// 1 to 64 characters of `[A-Za-z0-9._-]`, starting with a letter or digit.
pub open spec fn valid_worker_name(n: Seq<char>) -> bool {
    &&& 1 <= byte_len(n) <= 64
    &&& forall|i: int| 0 <= i < n.len() ==> name_char(#[trigger] n[i])
    &&& n.len() > 0 && is_alnum(n[0])
}

proof fn lemma_ascii_byte_len(n: Seq<char>)
    requires
        forall|i: int| 0 <= i < n.len() ==> name_char(#[trigger] n[i]),
    ensures
        byte_len(n) == n.len(),
    decreases n.len(),
{
    if n.len() > 0 {
        assert forall|i: int| 0 <= i < n.drop_last().len() implies name_char(#[trigger] n.drop_last()[i]) by {
            assert(n.drop_last()[i] == n[i]);
        }
        lemma_ascii_byte_len(n.drop_last());
        assert(name_char(n[n.len() - 1]));
    }
}

/// 1 to 64 characters of `[A-Za-z0-9._-]`, starting with a letter or digit.
pub fn validate_worker_name(name: &str) -> (r: Result<(), Error>)
    ensures
        match r {
            Ok(()) => valid_worker_name(name@),
            Err(e) => !valid_worker_name(name@) && (e matches Error::InvalidConfig(m) && m@
                == "invalid worker name "@ + spec_debug_str(name@)
                + ": use 1-64 characters of [A-Za-z0-9._-] starting with a letter or digit"@),
        },
{
    let v = chars_of(name);
    let mut ok = true;
    let mut i: usize = 0;
    while i < v.len()
        invariant
            i <= v.len(),
            ok == forall|j: int| 0 <= j < i ==> name_char(#[trigger] v@[j]),
        decreases v.len() - i,
    {
        let c = v[i];
        if !(char_is_alnum(c) || c == '.' || c == '_' || c == '-') {
            ok = false;
        }
        i = i + 1;
    }
    if ok {
        proof {
            lemma_ascii_byte_len(name@);
        }
    }
    if ok && v.len() >= 1 && v.len() <= 64 && char_is_alnum(v[0]) {
        Ok(())
    } else {
        let mut m = String::new();
        m.append("invalid worker name ");
        let d = debug_str(name);
        m.append(d.as_str());
        m.append(": use 1-64 characters of [A-Za-z0-9._-] starting with a letter or digit");
        Err(Error::InvalidConfig(m))
    }
}

/// Worker identity of this machine and worktree. It lives in the local
/// state and is never committed to the project repository.
#[derive(Debug, Clone, PartialEq)]
pub struct WorkerIdentity {
    /// Full UUID. Only the short form is shown to users.
    pub id: u128,
    pub name: String,
    pub registered_at: Timestamp,
    pub worktree: String,
}

impl WorkerIdentity {
    /// A new identity with a random ID; the name must be valid.
    pub fn new(name: &str, worktree: &str, now: Timestamp) -> (r: Result<WorkerIdentity, Error>)
        ensures
            match r {
                Ok(w) => valid_worker_name(name@) && w.name@ == name@ && w.worktree@ == worktree@
                    && w.registered_at == now,
                Err(e) => !valid_worker_name(name@) && e is InvalidConfig,
            },
    {
        match validate_worker_name(name) {
            Err(e) => Err(e),
            Ok(()) => Ok(WorkerIdentity {
                id: new_uuid(),
                name: String::from_str(name),
                registered_at: now,
                worktree: String::from_str(worktree),
            }),
        }
    }

    /// The first eight hex digits of the ID.
    pub fn short_id(&self) -> (r: String)
        ensures
            r@ == short_id_of(self.id),
    {
        short_id(self.id)
    }
}

} // verus!
