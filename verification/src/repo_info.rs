//! Git information of the *project* repository (not the context repository),
//! recorded in the worker file by `handoff`.
//!
//! The `git` invocations happen outside the library; what is read from their
//! output is decided here.

use vstd::prelude::*;

use crate::git::GitOutput;
use crate::order::{sort_by_key, sorted_by_key, text_before, char_codes, seq_lt, SortKey};
use crate::text::{
    chars_of, lines, lines_vec, occurs_at, slice_vec, string_of, sv, trim, trim_vec, vec_eq,
    vec_occurs_at, vv,
};

verus! {

broadcast use vstd::seq_lib::group_to_multiset_ensures;

#[derive(Debug, Clone, PartialEq, Eq)]
pub struct RepoInfo {
    /// `None` on a detached HEAD.
    pub branch: Option<String>,
    /// Short hash of HEAD, `None` without commits.
    pub commit: Option<String>,
    /// Uncommitted files plus files changed since the merge base with
    /// `origin/HEAD`, sorted and deduplicated.
    pub changed_files: Vec<String>,
}

impl Default for RepoInfo {
    fn default() -> (r: RepoInfo)
        ensures
            r.branch is None,
            r.commit is None,
            r.changed_files@.len() == 0,
    {
        RepoInfo { branch: None, commit: None, changed_files: Vec::new() }
    }
}

/// `git rev-parse --is-inside-work-tree` said `true`.
pub fn is_work_tree(out: &GitOutput) -> (r: bool)
    ensures
        r == (out.success && trim(out.stdout@) == "true"@),
{
    out.success && vec_eq(&trim_vec(&chars_of(out.stdout.as_str())), &chars_of("true"))
}

/// The current branch from `git branch --show-current` (none when detached).
pub fn branch_from(out: &GitOutput) -> (r: Option<String>)
    ensures
        match r {
            Some(b) => out.success && trim(out.stdout@).len() > 0 && b@ == trim(out.stdout@),
            None => !out.success || trim(out.stdout@).len() == 0,
        },
{
    let t = trim_vec(&chars_of(out.stdout.as_str()));
    if out.success && t.len() > 0 {
        Some(string_of(&t))
    } else {
        None
    }
}

/// The short hash from `git rev-parse --short HEAD` (none without commits).
pub fn commit_from(out: &GitOutput) -> (r: Option<String>)
    ensures
        match r {
            Some(c) => out.success && c@ == trim(out.stdout@),
            None => !out.success,
        },
{
    if out.success {
        Some(string_of(&trim_vec(&chars_of(out.stdout.as_str()))))
    } else {
        None
    }
}

/// Bytes of a character in UTF-8.
pub open spec fn utf8_width(c: char) -> int {
    let n = c as u32;
    if n < 0x80 {
        1
    } else if n < 0x800 {
        2
    } else if n < 0x10000 {
        3
    } else {
        4
    }
}

/// `str::get(n..)`: what follows the first `n` bytes, if `n` falls on a
/// character boundary within the text.
pub open spec fn after_bytes(s: Seq<char>, n: int) -> Option<Seq<char>>
    decreases s.len(),
{
    if n == 0 {
        Some(s)
    } else if s.len() == 0 || utf8_width(s[0]) > n {
        None
    } else {
        after_bytes(s.drop_first(), n - utf8_width(s[0]))
    }
}

fn char_width(c: char) -> (w: usize)
    ensures
        w == utf8_width(c),
{
    let n = c as u32;
    if n < 0x80 {
        1
    } else if n < 0x800 {
        2
    } else if n < 0x10000 {
        3
    } else {
        4
    }
}

fn skip_bytes(s: &[char], n: usize) -> (r: Option<Vec<char>>)
    ensures
        match r {
            Some(v) => after_bytes(s@, n as int) == Some(v@),
            None => after_bytes(s@, n as int) is None,
        },
{
    let mut i: usize = 0;
    let mut left: usize = n;
    assert(s@.subrange(0, s.len() as int) =~= s@);
    while left > 0
        invariant
            i <= s.len(),
            left <= n,
            after_bytes(s@, n as int) == after_bytes(s@.subrange(i as int, s.len() as int), left as int),
        decreases left,
    {
        let ghost rest = s@.subrange(i as int, s.len() as int);
        if i == s.len() {
            return None;
        }
        assert(rest[0] == s@[i as int]);
        let w = char_width(s[i]);
        if w > left {
            return None;
        }
        assert(rest.drop_first() =~= s@.subrange(i + 1, s.len() as int));
        left = left - w;
        i = i + 1;
    }
    Some(slice_vec(s, i, s.len()))
}

/// What follows the last ` -> ` (a rename), or the whole path.
pub open spec fn after_arrow(p: Seq<char>) -> Seq<char> {
    if exists|i: int| occurs_at(p, " -> "@, i) {
        let i = choose|i: int| occurs_at(p, " -> "@, i) && forall|j: int| occurs_at(p, " -> "@, j) ==> j <= i;
        p.subrange(i + 4, p.len() as int)
    } else {
        p
    }
}

fn after_arrow_vec(p: &[char]) -> (r: Vec<char>)
    ensures
        r@ == after_arrow(p@),
{
    let arrow = chars_of(" -> ");
    proof {
        reveal_strlit(" -> ");
    }
    if p.len() < 4 {
        assert forall|j: int| !occurs_at(p@, " -> "@, j) by {}
        return slice_vec(p, 0, p.len());
    }
    let mut i: usize = p.len() - 4 + 1;
    while i > 0
        invariant
            i <= p.len() - 3,
            p.len() >= 4,
            arrow@ == " -> "@,
            " -> "@.len() == 4,
            forall|j: int| i <= j ==> !occurs_at(p@, " -> "@, j),
        decreases i,
    {
        i = i - 1;
        if vec_occurs_at(p, &arrow, i) {
            let r = slice_vec(p, i + 4, p.len());
            proof {
                let k = choose|k: int| occurs_at(p@, " -> "@, k) && forall|j: int| occurs_at(p@, " -> "@, j) ==> j <= k;
                assert(k <= i && i <= k);
            }
            return r;
        }
    }
    assert(p@.subrange(0, p.len() as int) =~= p@);
    slice_vec(p, 0, p.len())
}

/// Git quotes paths with special characters: `"a b.txt"`.
pub open spec fn unquoted(path: Seq<char>) -> Seq<char> {
    let t = trim(path);
    if t.len() >= 2 && t[0] == '"' && t.last() == '"' {
        t.subrange(1, t.len() - 1)
    } else {
        t
    }
}

fn unquote(path: &[char]) -> (r: String)
    ensures
        r@ == unquoted(path@),
{
    let t = trim_vec(path);
    if t.len() >= 2 && t[0] == '"' && t[t.len() - 1] == '"' {
        string_of(&slice_vec(&t, 1, t.len() - 1))
    } else {
        string_of(&t)
    }
}

/// The path of one `git status --porcelain` line, if it has one.
pub open spec fn status_path(line: Seq<char>) -> Option<Seq<char>> {
    match after_bytes(line, 3) {
        Some(p) => Some(unquoted(after_arrow(p))),
        None => None,
    }
}

pub open spec fn status_paths_of(ls: Seq<Seq<char>>) -> Seq<Seq<char>>
    decreases ls.len(),
{
    if ls.len() == 0 {
        Seq::empty()
    } else {
        let r = status_paths_of(ls.drop_last());
        match status_path(ls.last()) {
            Some(p) => r.push(p),
            None => r,
        }
    }
}

/// Paths named by `git status --porcelain` output, in order.
pub fn status_paths(status: &str) -> (r: Vec<String>)
    ensures
        sv(r@) == status_paths_of(lines(status@)),
{
    let ls = lines_vec(&chars_of(status));
    let ghost lv = lines(status@);
    assert(vv(ls@) =~= lv);
    let mut out: Vec<String> = Vec::new();
    let mut i: usize = 0;
    while i < ls.len()
        invariant
            i <= ls.len(),
            vv(ls@) == lv,
            sv(out@) == status_paths_of(lv.take(i as int)),
        decreases ls.len() - i,
    {
        assert(lv.take(i + 1).drop_last() =~= lv.take(i as int));
        assert(lv.take(i + 1).last() == ls@[i as int]@);
        match skip_bytes(&ls[i], 3) {
            Some(p) => {
                let path = unquote(&after_arrow_vec(&p));
                let ghost before = out@;
                out.push(path);
                assert(sv(out@) =~= sv(before).push(path@));
            },
            None => {},
        }
        i = i + 1;
    }
    assert(lv.take(ls.len() as int) =~= lv);
    out
}

pub open spec fn diff_paths_of(ls: Seq<Seq<char>>) -> Seq<Seq<char>>
    decreases ls.len(),
{
    if ls.len() == 0 {
        Seq::empty()
    } else {
        let r = diff_paths_of(ls.drop_last());
        if ls.last().len() > 0 {
            r.push(unquoted(ls.last()))
        } else {
            r
        }
    }
}

/// Paths named by `git diff --name-only` output, in order.
pub fn diff_paths(diff: &str) -> (r: Vec<String>)
    ensures
        sv(r@) == diff_paths_of(lines(diff@)),
{
    let ls = lines_vec(&chars_of(diff));
    let ghost lv = lines(diff@);
    assert(vv(ls@) =~= lv);
    let mut out: Vec<String> = Vec::new();
    let mut i: usize = 0;
    while i < ls.len()
        invariant
            i <= ls.len(),
            vv(ls@) == lv,
            sv(out@) == diff_paths_of(lv.take(i as int)),
        decreases ls.len() - i,
    {
        assert(lv.take(i + 1).drop_last() =~= lv.take(i as int));
        assert(lv.take(i + 1).last() == ls@[i as int]@);
        if ls[i].len() > 0 {
            let path = unquote(&ls[i]);
            let ghost before = out@;
            out.push(path);
            assert(sv(out@) =~= sv(before).push(path@));
        }
        i = i + 1;
    }
    assert(lv.take(ls.len() as int) =~= lv);
    out
}

/// `<merge base>...HEAD`.
pub fn changed_range(base: &GitOutput) -> (r: String)
    ensures
        r@ == trim(base.stdout@) + "...HEAD"@,
{
    let mut r = string_of(&trim_vec(&chars_of(base.stdout.as_str())));
    r.append("...HEAD");
    r
}

/// Strictly increasing: sorted and without repeats.
pub open spec fn strictly_sorted(s: Seq<Seq<char>>) -> bool {
    forall|i: int, j: int| 0 <= i < j < s.len() ==> seq_lt(#[trigger] char_codes(s[i]), #[trigger] char_codes(s[j]))
}

/// The same paths, each once, in order (`BTreeSet` order).
pub fn sorted_unique(v: Vec<String>) -> (r: Vec<String>)
    ensures
        strictly_sorted(sv(r@)),
        forall|x: Seq<char>| sv(r@).contains(x) <==> sv(v@).contains(x),
{
    let ghost orig = v@;
    let s = sort_by_key(v);
    let mut out: Vec<String> = Vec::new();
    let mut i: usize = 0;
    while i < s.len()
        invariant
            i <= s.len(),
            sorted_by_key(s@),
            strictly_sorted(sv(out@)),
            out@.len() > 0 ==> i > 0 && sv(out@).last() == s@[i - 1]@,
            i > 0 ==> out@.len() > 0,
            forall|x: Seq<char>| sv(out@).contains(x) <==> exists|k: int| 0 <= k < i && s@[k]@ == x,
        decreases s.len() - i,
    {
        let keep = out.len() == 0 || !vec_eq(&chars_of(out[out.len() - 1].as_str()), &chars_of(s[i].as_str()));
        if keep {
            let c = s[i].clone();
            let ghost before = out@;
            proof {
                if before.len() > 0 {
                    // the previous kept path sorts before this one
                    let prev = s@[i - 1]@;
                    assert(!seq_lt(s@[i as int].sort_key(), s@[i - 1].sort_key()));
                    assert(!seq_lt(char_codes(s@[i as int]@), char_codes(s@[i - 1]@)));
                    lemma_codes_total(prev, s@[i as int]@);
                }
            }
            out.push(c);
            proof {
                assert(sv(out@) =~= sv(before).push(c@));
                assert forall|a: int, b: int| 0 <= a < b < sv(out@).len() implies seq_lt(
                    #[trigger] char_codes(sv(out@)[a]),
                    #[trigger] char_codes(sv(out@)[b]),
                ) by {
                    if b == sv(out@).len() - 1 && a < b {
                        if a < sv(before).len() - 1 {
                            crate::order::lemma_seq_lt_transitive(
                                char_codes(sv(before)[a]),
                                char_codes(sv(before).last()),
                                char_codes(c@),
                            );
                        }
                    }
                }
                assert forall|x: Seq<char>| sv(out@).contains(x) <==> exists|k: int| 0 <= k < i + 1 && s@[k]@ == x by {
                    if sv(out@).contains(x) {
                        let j = choose|j: int| 0 <= j < sv(out@).len() && sv(out@)[j] == x;
                        if j < sv(before).len() {
                            assert(sv(before).contains(x));
                        }
                    }
                    if exists|k: int| 0 <= k < i + 1 && s@[k]@ == x {
                        let k = choose|k: int| 0 <= k < i + 1 && s@[k]@ == x;
                        if k < i {
                            assert(sv(before).contains(x));
                            let j = choose|j: int| 0 <= j < sv(before).len() && sv(before)[j] == x;
                            assert(sv(out@)[j] == x);
                        } else {
                            assert(sv(out@)[sv(out@).len() - 1] == x);
                        }
                    }
                }
            }
        } else {
            proof {
                assert forall|x: Seq<char>| sv(out@).contains(x) <==> exists|k: int| 0 <= k < i + 1 && s@[k]@ == x by {
                    if exists|k: int| 0 <= k < i + 1 && s@[k]@ == x {
                        let k = choose|k: int| 0 <= k < i + 1 && s@[k]@ == x;
                        if k == i {
                            assert(sv(out@)[sv(out@).len() - 1] == x);
                        }
                    }
                }
            }
        }
        i = i + 1;
    }
    proof {
        assert forall|x: Seq<char>| sv(out@).contains(x) <==> sv(orig).contains(x) by {
            if exists|k: int| 0 <= k < s@.len() && s@[k]@ == x {
                let k = choose|k: int| 0 <= k < s@.len() && s@[k]@ == x;
                assert(s@.to_multiset().count(s@[k]) > 0);
                assert(orig.contains(s@[k]));
                let j = choose|j: int| 0 <= j < orig.len() && orig[j] == s@[k];
                assert(sv(orig)[j] == x);
            }
            if sv(orig).contains(x) {
                let j = choose|j: int| 0 <= j < sv(orig).len() && sv(orig)[j] == x;
                assert(orig.to_multiset().count(orig[j]) > 0);
                assert(s@.contains(orig[j]));
                let k = choose|k: int| 0 <= k < s@.len() && s@[k] == orig[j];
                assert(s@[k]@ == x);
            }
        }
    }
    out
}

/// Two different texts are ordered one way or the other.
proof fn lemma_codes_total(a: Seq<char>, b: Seq<char>)
    ensures
        a == b || seq_lt(char_codes(a), char_codes(b)) || seq_lt(char_codes(b), char_codes(a)),
    decreases a.len(),
{
    if a.len() > 0 && b.len() > 0 {
        lemma_codes_total(a.drop_first(), b.drop_first());
        assert(char_codes(a).drop_first() =~= char_codes(a.drop_first()));
        assert(char_codes(b).drop_first() =~= char_codes(b.drop_first()));
        vstd::utf8::char_u32_cast(a[0], a[0] as u32);
        vstd::utf8::char_u32_cast(b[0], b[0] as u32);
        if a[0] == b[0] && a.drop_first() == b.drop_first() {
            assert forall|i: int| 0 <= i < a.len() implies a[i] == b[i] by {
                if i > 0 {
                    assert(a[i] == a.drop_first()[i - 1]);
                    assert(b[i] == b.drop_first()[i - 1]);
                }
            }
            assert(a =~= b);
        }
    } else if a.len() == 0 && b.len() == 0 {
        assert(a =~= b);
    }
}

} // verus!
