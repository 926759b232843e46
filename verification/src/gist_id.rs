//! Parsing of Gist IDs and URLs.

use vstd::prelude::*;

use crate::error::Error;
use crate::text::{
    after_last, before_either, chars_of, debug_str, eq_ignore_ascii_case, is_alnum, slice_vec,
    spec_debug_str, split_once, split_once_str, string_of, strip_prefix, strip_suffix, trim,
    trim_end_char, trim_vec, vec_after_last, vec_before_either, vec_ends_with, vec_eq,
    vec_eq_ignore_ascii_case, vec_split_once, vec_split_once_str, vec_starts_with,
    vec_trim_end_char, char_is_alnum,
};

verus! {

/// 1 to 64 ASCII letters or digits.
pub open spec fn valid_id(id: Seq<char>) -> bool {
    1 <= id.len() <= 64 && forall|i: int| 0 <= i < id.len() ==> is_alnum(#[trigger] id[i])
}

/// The part that should hold the ID, for an already trimmed input.
pub open spec fn gist_candidate(t: Seq<char>) -> Option<Seq<char>> {
    match strip_prefix(t, "git@gist.github.com:"@) {
        Some(rest) => Some(rest),
        None => match split_once_str(t, "://"@) {
            Some(sr) => if sr.0 != "https"@ && sr.0 != "http"@ {
                None
            } else {
                let hp = match split_once(sr.1, '/') {
                    Some(x) => x,
                    None => (sr.1, Seq::<char>::empty()),
                };
                if !eq_ignore_ascii_case(hp.0, "gist.github.com"@) {
                    None
                } else {
                    Some(after_last(trim_end_char(before_either(hp.1, '#', '?'), '/'), '/'))
                }
            },
            None => Some(t),
        },
    }
}

/// The Gist ID named by an ID or a Gist URL.
///
/// Accepted forms: `0123abcd`; `https://gist.github.com/<user>/0123abcd` and
/// `https://gist.github.com/0123abcd`, optionally followed by `/`, `.git`,
/// `#fragment` or `?query`; `git@gist.github.com:0123abcd.git`.
pub open spec fn gist_id_of(input: Seq<char>) -> Option<Seq<char>> {
    match gist_candidate(trim(input)) {
        None => None,
        Some(c) => {
            let id = match strip_suffix(c, ".git"@) {
                Some(x) => x,
                None => c,
            };
            if valid_id(id) {
                Some(id)
            } else {
                None
            }
        },
    }
}

fn candidate_of(t: &[char]) -> (r: Option<Vec<char>>)
    ensures
        match r {
            Some(c) => gist_candidate(t@) == Some(c@),
            None => gist_candidate(t@) is None,
        },
{
    let ssh = chars_of("git@gist.github.com:");
    if vec_starts_with(t, &ssh) {
        return Some(slice_vec(t, ssh.len(), t.len()));
    }
    let sep = chars_of("://");
    match vec_split_once_str(t, &sep) {
        None => Some(slice_vec(t, 0, t.len())),
        Some((scheme, rest)) => {
            let https = chars_of("https");
            let http = chars_of("http");
            if !vec_eq(&scheme, &https) && !vec_eq(&scheme, &http) {
                return None;
            }
            let (host, path) = match vec_split_once(&rest, '/') {
                Some(x) => x,
                None => (slice_vec(&rest, 0, rest.len()), Vec::new()),
            };
            proof {
                assert(rest@.subrange(0, rest@.len() as int) =~= rest@);
            }
            let gist_host = chars_of("gist.github.com");
            if !vec_eq_ignore_ascii_case(&host, &gist_host) {
                return None;
            }
            let p = vec_before_either(&path, '#', '?');
            let p = vec_trim_end_char(&p, '/');
            Some(vec_after_last(&p, '/'))
        },
    }
}

/// Returns the Gist ID from an ID or a Gist URL.
pub fn parse_gist_id(input: &str) -> (r: Result<String, Error>)
    ensures
        match r {
            Ok(id) => gist_id_of(input@) == Some(id@),
            Err(e) => gist_id_of(input@) is None && (e matches Error::InvalidConfig(m) && m@
                == "invalid gist id or url: "@ + spec_debug_str(input@)),
        },
{
    let raw = chars_of(input);
    let t = trim_vec(&raw);
    let candidate = candidate_of(&t);
    let id = match candidate {
        None => return Err(invalid_id(input)),
        Some(c) => {
            let suffix = chars_of(".git");
            if vec_ends_with(&c, &suffix) {
                slice_vec(&c, 0, c.len() - suffix.len())
            } else {
                c
            }
        },
    };
    if id_is_valid(&id) {
        Ok(string_of(&id))
    } else {
        Err(invalid_id(input))
    }
}

fn invalid_id(input: &str) -> (e: Error)
    ensures
        e matches Error::InvalidConfig(m) && m@ == "invalid gist id or url: "@ + spec_debug_str(
            input@,
        ),
{
    let mut m = String::new();
    m.append("invalid gist id or url: ");
    let d = debug_str(input);
    m.append(d.as_str());
    Error::InvalidConfig(m)
}

fn id_is_valid(id: &[char]) -> (b: bool)
    ensures
        b == valid_id(id@),
{
    if id.len() < 1 || id.len() > 64 {
        return false;
    }
    let mut i: usize = 0;
    while i < id.len()
        invariant
            i <= id.len(),
            forall|j: int| 0 <= j < i ==> is_alnum(#[trigger] id@[j]),
        decreases id.len() - i,
    {
        if !char_is_alnum(id[i]) {
            return false;
        }
        i = i + 1;
    }
    true
}

} // verus!
