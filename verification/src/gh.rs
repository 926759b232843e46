//! Reading the output of the GitHub CLI (`gh`).
//!
//! Running `gh` is the application's job; this module decides what its
//! output means.

use vstd::prelude::*;

use crate::error::Error;
use crate::gist_id::{gist_id_of, parse_gist_id};
use crate::bootstrap::manifest::{lowercase, lowercase_string};
use crate::text::{
    chars_of, contains, debug_str, lines, lines_vec, spec_debug_str, starts_with, string_of, trim,
    trim_vec, vec_contains, vec_starts_with, vv,
};

verus! {

/// The last line that starts with `https://` once trimmed.
pub open spec fn last_url(ls: Seq<Seq<char>>) -> Option<Seq<char>>
    decreases ls.len(),
{
    if ls.len() == 0 {
        None
    } else if starts_with(trim(ls.last()), "https://"@) {
        Some(trim(ls.last()))
    } else {
        last_url(ls.drop_last())
    }
}

/// Extracts the Gist ID from the output of `gh gist create`.
pub fn parse_gist_create_output(stdout: &str) -> (r: Result<String, Error>)
    ensures
        match last_url(lines(stdout@)) {
            None => r matches Err(Error::Remote(m)) && m@ == "gist URL not found in gh output: "@
                + spec_debug_str(stdout@),
            Some(url) => match r {
                Ok(id) => gist_id_of(url) == Some(id@),
                Err(e) => gist_id_of(url) is None && e is InvalidConfig,
            },
        },
{
    let text = chars_of(stdout);
    let ls = lines_vec(&text);
    let ghost lsv = lines(stdout@);
    assert(vv(ls@) =~= lsv);
    let prefix = chars_of("https://");
    let mut k: usize = ls.len();
    assert(lsv.take(ls.len() as int) =~= lsv);
    while k > 0
        invariant
            k <= ls.len(),
            vv(ls@) == lsv,
            lsv == lines(stdout@),
            prefix@ == "https://"@,
            last_url(lsv) == last_url(lsv.take(k as int)),
        decreases k,
    {
        assert(lsv.take(k as int).drop_last() =~= lsv.take(k - 1));
        assert(lsv.take(k as int).last() == ls@[k - 1]@);
        let line = trim_vec(&ls[k - 1]);
        assert(line@ == trim(lsv.take(k as int).last()));
        assert(prefix@ == "https://"@);
        if vec_starts_with(&line, &prefix) {
            assert(last_url(lsv.take(k as int)) == Some(line@));
            let url = string_of(&line);
            let r = parse_gist_id(url.as_str());
            assert(last_url(lines(stdout@)) == Some(url@));
            match &r {
                Ok(id) => assert(gist_id_of(url@) == Some(id@)),
                Err(e) => assert(gist_id_of(url@) is None && e is InvalidConfig),
            }
            return r;
        }
        assert(last_url(lsv.take(k as int)) == last_url(lsv.take(k - 1)));
        k = k - 1;
    }
    let mut m = String::new();
    m.append("gist URL not found in gh output: ");
    let d = debug_str(stdout);
    m.append(d.as_str());
    Err(Error::Remote(m))
}

/// The message of a failed `gh gist create`: its trimmed error output.
pub open spec fn gist_create_failure_text(stderr: Seq<char>) -> Seq<char> {
    "gh gist create failed: "@ + trim(stderr)
}

/// Whether gh's error output speaks of authentication (`auth` in any ASCII
/// case; no other character lowercases to one of these letters).
pub open spec fn mentions_auth(stderr: Seq<char>) -> bool {
    contains(lowercase(trim(stderr)), "auth"@)
}

/// The error for a failed `gh gist create`: an authentication error when
/// gh's output mentions `auth`, a remote error otherwise.
pub fn gist_create_failure(stderr: &str) -> (e: Error)
    ensures
        mentions_auth(stderr@) ==> (e matches Error::Auth(m) && m@ == gist_create_failure_text(stderr@)),
        !mentions_auth(stderr@) ==> (e matches Error::Remote(m) && m@ == gist_create_failure_text(
            stderr@,
        )),
{
    let t = string_of(&trim_vec(&chars_of(stderr)));
    let lower = lowercase_string(t.as_str());
    let auth = vec_contains(&chars_of(lower.as_str()), &chars_of("auth"));
    let mut m = String::new();
    m.append("gh gist create failed: ");
    m.append(t.as_str());
    if auth {
        Error::Auth(m)
    } else {
        Error::Remote(m)
    }
}

} // verus!
