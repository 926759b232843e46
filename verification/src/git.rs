//! What ctx-sync reads from the `git` command's output.
//!
//! `git` runs as a subprocess outside the library; its captured output is
//! handed over as a [`GitOutput`].

use vstd::prelude::*;

use crate::error::Error;
use crate::text::{chars_of, join, string_of, trim, trim_vec};

verus! {

/// Runs `git` in a fixed working directory.
#[derive(Debug, Clone)]
pub struct Git {
    cwd: String,
    env: Vec<(String, String)>,
}

/// Captured result of a `git` invocation.
#[derive(Debug, Clone)]
pub struct GitOutput {
    pub success: bool,
    pub code: Option<i32>,
    pub stdout: String,
    pub stderr: String,
}

impl Git {
    pub fn new(cwd: &str) -> (g: Git)
        ensures
            g.cwd_view() == cwd@,
            g.env_view().len() == 0,
    {
        Git { cwd: String::from_str(cwd), env: Vec::new() }
    }

    pub closed spec fn cwd_view(&self) -> Seq<char> {
        self.cwd@
    }

    pub closed spec fn env_view(&self) -> Seq<(Seq<char>, Seq<char>)> {
        self.env@.map_values(|p: (String, String)| (p.0@, p.1@))
    }

    /// Adds environment variables passed to every `git` child process.
    pub fn with_env(self, vars: &[(String, String)]) -> (g: Git)
        ensures
            g.cwd_view() == self.cwd_view(),
            g.env_view() == self.env_view() + vars@.map_values(|p: (String, String)| (p.0@, p.1@)),
    {
        let mut g = self;
        let ghost start = g.env_view();
        let ghost add = vars@.map_values(|p: (String, String)| (p.0@, p.1@));
        let mut i: usize = 0;
        while i < vars.len()
            invariant
                i <= vars.len(),
                add == vars@.map_values(|p: (String, String)| (p.0@, p.1@)),
                g.cwd_view() == self.cwd_view(),
                g.env_view() == start + add.take(i as int),
            decreases vars.len() - i,
        {
            let pair = (vars[i].0.clone(), vars[i].1.clone());
            let ghost before = g.env@;
            g.env.push(pair);
            assert(g.env@ == before.push(pair));
            assert(g.env@.map_values(|p: (String, String)| (p.0@, p.1@)) =~= before.map_values(
                |p: (String, String)| (p.0@, p.1@),
            ).push((pair.0@, pair.1@)));
            assert(pair.0@ == vars@[i as int].0@ && pair.1@ == vars@[i as int].1@);
            assert(add.take(i + 1) =~= add.take(i as int).push((pair.0@, pair.1@)));
            assert(g.env_view() =~= start + add.take(i + 1));
            i = i + 1;
        }
        assert(add.take(vars.len() as int) =~= add);
        g
    }

    pub fn cwd(&self) -> (r: &str)
        ensures
            r@ == self.cwd_view(),
    {
        self.cwd.as_str()
    }

    /// The environment variables given so far.
    pub fn env(&self) -> (r: &Vec<(String, String)>)
        ensures
            r@.map_values(|p: (String, String)| (p.0@, p.1@)) == self.env_view(),
    {
        &self.env
    }
}

pub open spec fn args_text(args: Seq<&str>) -> Seq<Seq<char>> {
    args.map_values(|a: &str| a@)
}

/// `git <args> failed: <stderr, trimmed>`.
pub open spec fn failure_text(args: Seq<&str>, stderr: Seq<char>) -> Seq<char> {
    "git "@ + join(args_text(args), seq![' ']) + " failed: "@ + trim(stderr)
}

/// The error for a failed `git` invocation.
pub fn error_from_output(args: &[&str], out: &GitOutput) -> (e: Error)
    ensures
        e matches Error::General(m) && m@ == failure_text(args@, out.stderr@),
{
    let mut parts: Vec<String> = Vec::new();
    let mut i: usize = 0;
    while i < args.len()
        invariant
            i <= args.len(),
            crate::text::sv(parts@) == args_text(args@).take(i as int),
        decreases args.len() - i,
    {
        let ghost before = parts@;
        let a = String::from_str(args[i]);
        parts.push(a);
        assert(crate::text::sv(parts@) =~= crate::text::sv(before).push(a@));
        assert(a@ == args@[i as int]@);
        assert(args_text(args@).take(i + 1) =~= args_text(args@).take(i as int).push(args@[i as int]@));
        assert(crate::text::sv(parts@) =~= args_text(args@).take(i + 1));
        i = i + 1;
    }
    assert(args_text(args@).take(args.len() as int) =~= args_text(args@));
    let mut m = String::new();
    m.append("git ");
    let joined = crate::text::join_strings(&parts, " ");
    m.append(joined.as_str());
    m.append(" failed: ");
    let t = string_of(&trim_vec(&chars_of(out.stderr.as_str())));
    m.append(t.as_str());
    proof {
        reveal_strlit(" ");
        assert(" "@ =~= seq![' ']);
    }
    Error::General(m)
}

/// Standard output of a successful invocation, or the error.
pub fn checked_stdout(args: &[&str], out: GitOutput) -> (r: Result<String, Error>)
    ensures
        out.success ==> (r matches Ok(s) && s@ == out.stdout@),
        !out.success ==> (r matches Err(e) && (e matches Error::General(m) && m@ == failure_text(args@, out.stderr@))),
{
    if out.success {
        Ok(out.stdout)
    } else {
        Err(error_from_output(args, &out))
    }
}

/// Like [`checked_stdout`], with surrounding whitespace trimmed.
pub fn stdout_line(args: &[&str], out: GitOutput) -> (r: Result<String, Error>)
    ensures
        out.success ==> (r matches Ok(s) && s@ == trim(out.stdout@)),
        !out.success ==> (r matches Err(e) && (e matches Error::General(m) && m@ == failure_text(args@, out.stderr@))),
{
    match checked_stdout(args, out) {
        Ok(s) => Ok(string_of(&trim_vec(&chars_of(s.as_str())))),
        Err(e) => Err(e),
    }
}

} // verus!
