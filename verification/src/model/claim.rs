//! Path claims use a small, repository-relative glob syntax.
//!
//! A pattern is split into `/`-separated components. `**` as a whole
//! component spans zero or more directories; inside a component `*` matches
//! any run of characters and `?` one character.

use vstd::prelude::*;
use vstd::string::StrSliceExecFns;

use crate::error::Error;
use crate::text::{
    before_either, vec_before_either, chars_of, debug_str, has_char, slice_vec, spec_debug_str, split, split_vec, trim,
    trim_end_char, trim_vec, vec_eq, vec_has_char, vec_trim_end_char, vv,
};

verus! {

/// Components of a path: `/`-separated, trailing `/` ignored.
pub open spec fn components(value: Seq<char>) -> Seq<Seq<char>> {
    let v = trim_end_char(value, '/');
    if v.len() == 0 {
        Seq::empty()
    } else {
        split(v, '/')
    }
}

/// Whether `pat[i..]` matches `text[j..]` (`*` any run, `?` one character).
pub open spec fn glob_from(pat: Seq<char>, text: Seq<char>, i: int, j: int) -> bool
    decreases pat.len() - i, text.len() - j,
{
    if i < 0 || j < 0 || i >= pat.len() {
        j == text.len()
    } else if pat[i] == '*' {
        glob_from(pat, text, i + 1, j) || (j < text.len() && glob_from(pat, text, i, j + 1))
    } else if pat[i] == '?' {
        j < text.len() && glob_from(pat, text, i + 1, j + 1)
    } else {
        j < text.len() && pat[i] == text[j] && glob_from(pat, text, i + 1, j + 1)
    }
}

pub open spec fn component_matches(pat: Seq<char>, text: Seq<char>) -> bool {
    glob_from(pat, text, 0, 0)
}

/// Whether components `pat[p..]` match `path[s..]`.
pub open spec fn path_from(pat: Seq<Seq<char>>, path: Seq<Seq<char>>, p: int, s: int) -> bool
    decreases pat.len() - p, path.len() - s,
{
    if p < 0 || s < 0 || p >= pat.len() {
        s == path.len()
    } else if pat[p] == seq!['*', '*'] {
        path_from(pat, path, p + 1, s) || (s < path.len() && path_from(pat, path, p, s + 1))
    } else {
        s < path.len() && component_matches(pat[p], path[s]) && path_from(pat, path, p + 1, s + 1)
    }
}

pub open spec fn path_matches(pattern: Seq<char>, path: Seq<char>) -> bool {
    path_from(components(pattern), components(path), 0, 0)
}

fn components_vec(value: &[char]) -> (r: Vec<Vec<char>>)
    ensures
        vv(r@) == components(value@),
{
    let v = vec_trim_end_char(value, '/');
    if v.len() == 0 {
        let r: Vec<Vec<char>> = Vec::new();
        assert(vv(r@) =~= Seq::<Seq<char>>::empty());
        r
    } else {
        let r = split_vec(&v, '/');
        assert(vv(r@) =~= split(v@, '/'));
        r
    }
}

fn falses(n: usize) -> (v: Vec<bool>)
    ensures
        v@.len() == n,
        forall|k: int| 0 <= k < n ==> !v@[k],
{
    let mut v: Vec<bool> = Vec::new();
    let mut j: usize = 0;
    while j < n
        invariant
            j <= n,
            v@.len() == j,
            forall|k: int| 0 <= k < j ==> !v@[k],
        decreases n - j,
    {
        v.push(false);
        j = j + 1;
    }
    v
}

fn glob_matches(pat: &[char], text: &[char]) -> (b: bool)
    ensures
        b == component_matches(pat@, text@),
{
    let n = pat.len();
    let m = text.len();
    // Row i of the table: next[k] == glob_from(pat, text, i, k) for k < m,
    // next_last == glob_from(pat, text, i, m).
    let mut next = falses(m);
    let mut next_last = true;
    let mut i: usize = n;
    while i > 0
        invariant
            i <= n,
            m == text@.len(),
            n == pat@.len(),
            next@.len() == m,
            forall|t: int| 0 <= t < m ==> next@[t] == glob_from(pat@, text@, i as int, t),
            next_last == glob_from(pat@, text@, i as int, m as int),
        decreases i,
    {
        let c = pat[i - 1];
        let mut cur = falses(m);
        let cur_last = c == '*' && next_last;
        let mut s: usize = m;
        while s > 0
            invariant
                s <= m,
                0 < i <= n,
                c == pat@[i - 1],
                m == text@.len(),
                n == pat@.len(),
                next@.len() == m,
                cur@.len() == m,
                forall|k: int| 0 <= k < m ==> next@[k] == glob_from(pat@, text@, i as int, k),
                next_last == glob_from(pat@, text@, i as int, m as int),
                cur_last == glob_from(pat@, text@, i - 1, m as int),
                forall|k: int| s <= k < m ==> cur@[k] == glob_from(pat@, text@, i - 1, k),
            decreases s,
        {
            let k = s - 1;
            let after_cur = if k + 1 == m {
                cur_last
            } else {
                cur[k + 1]
            };
            let after_next = if k + 1 == m {
                next_last
            } else {
                next[k + 1]
            };
            let v = if c == '*' {
                next[k] || after_cur
            } else if c == '?' {
                after_next
            } else {
                c == text[k] && after_next
            };
            cur.set(k, v);
            s = k;
        }
        next = cur;
        next_last = cur_last;
        i = i - 1;
    }
    if m == 0 {
        next_last
    } else {
        next[0]
    }
}

fn path_matches_components(pat: &Vec<Vec<char>>, path: &Vec<Vec<char>>) -> (b: bool)
    ensures
        b == path_from(vv(pat@), vv(path@), 0, 0),
{
    let ghost pv = vv(pat@);
    let ghost qv = vv(path@);
    let n = pat.len();
    let m = path.len();
    let stars = vec!['*', '*'];
    assert(stars@ =~= seq!['*', '*']);
    let mut next = falses(m);
    let mut next_last = true;
    let mut i: usize = n;
    while i > 0
        invariant
            i <= n,
            pv == vv(pat@),
            qv == vv(path@),
            stars@ == seq!['*', '*'],
            m == qv.len(),
            n == pv.len(),
            next@.len() == m,
            forall|t: int| 0 <= t < m ==> next@[t] == path_from(pv, qv, i as int, t),
            next_last == path_from(pv, qv, i as int, m as int),
        decreases i,
    {
        let is_star = vec_eq(&pat[i - 1], &stars);
        let mut cur = falses(m);
        let cur_last = is_star && next_last;
        let mut s: usize = m;
        while s > 0
            invariant
                s <= m,
                0 < i <= n,
                pv == vv(pat@),
                qv == vv(path@),
                is_star == (pv[i - 1] == seq!['*', '*']),
                m == qv.len(),
                n == pv.len(),
                next@.len() == m,
                cur@.len() == m,
                forall|k: int| 0 <= k < m ==> next@[k] == path_from(pv, qv, i as int, k),
                next_last == path_from(pv, qv, i as int, m as int),
                cur_last == path_from(pv, qv, i - 1, m as int),
                forall|k: int| s <= k < m ==> cur@[k] == path_from(pv, qv, i - 1, k),
            decreases s,
        {
            let k = s - 1;
            let after_cur = if k + 1 == m {
                cur_last
            } else {
                cur[k + 1]
            };
            let after_next = if k + 1 == m {
                next_last
            } else {
                next[k + 1]
            };
            let v = if is_star {
                next[k] || after_cur
            } else {
                glob_matches(&pat[i - 1], &path[k]) && after_next
            };
            cur.set(k, v);
            s = k;
        }
        next = cur;
        next_last = cur_last;
        i = i - 1;
    }
    if m == 0 {
        next_last
    } else {
        next[0]
    }
}

/// Match path components; `**` as a whole component spans zero or more directories.
pub fn matches(pattern: &str, path: &str) -> (b: bool)
    ensures
        b == path_matches(pattern@, path@),
{
    let p = components_vec(&chars_of(pattern));
    let q = components_vec(&chars_of(path));
    path_matches_components(&p, &q)
}

/// `s` with the part after the last `c` removed (empty without `c`).
pub open spec fn up_to_last(s: Seq<char>, c: char) -> Seq<char>
    decreases s.len(),
{
    if s.len() == 0 || s.last() == c {
        s
    } else {
        up_to_last(s.drop_last(), c)
    }
}

/// The path before the first component that holds `*` or `?`.
pub open spec fn literal_prefix_of(pattern: Seq<char>) -> Seq<char> {
    let t = trim_end_char(pattern, '/');
    let head = before_either(t, '*', '?');
    if head.len() == t.len() {
        t
    } else {
        trim_end_char(up_to_last(head, '/'), '/')
    }
}

pub open spec fn is_prefix(r: Seq<char>, s: Seq<char>) -> bool {
    r.len() <= s.len() && s.subrange(0, r.len() as int) == r
}

proof fn lemma_trim_end_char_prefix(s: Seq<char>, c: char)
    ensures
        is_prefix(trim_end_char(s, c), s),
    decreases s.len(),
{
    if s.len() > 0 && s.last() == c {
        lemma_trim_end_char_prefix(s.drop_last(), c);
        let r = trim_end_char(s, c);
        assert(s.subrange(0, r.len() as int) =~= s.drop_last().subrange(0, r.len() as int));
    } else {
        assert(s.subrange(0, s.len() as int) =~= s);
    }
}

proof fn lemma_up_to_last_prefix(s: Seq<char>, c: char)
    ensures
        is_prefix(up_to_last(s, c), s),
    decreases s.len(),
{
    if s.len() == 0 || s.last() == c {
        assert(s.subrange(0, s.len() as int) =~= s);
    } else {
        lemma_up_to_last_prefix(s.drop_last(), c);
        let r = up_to_last(s, c);
        assert(s.subrange(0, r.len() as int) =~= s.drop_last().subrange(0, r.len() as int));
    }
}

proof fn lemma_before_either_prefix(s: Seq<char>, a: char, b: char)
    ensures
        is_prefix(before_either(s, a, b), s),
    decreases s.len(),
{
    if !(s.len() == 0 || s[0] == a || s[0] == b) {
        lemma_before_either_prefix(s.drop_first(), a, b);
        let r = before_either(s, a, b);
        assert(s.subrange(0, r.len() as int) =~= seq![s[0]] + s.drop_first().subrange(
            0,
            r.len() - 1,
        ));
    } else {
        assert(s.subrange(0, 0) =~= Seq::<char>::empty());
    }
}

proof fn lemma_prefix_trans(r: Seq<char>, q: Seq<char>, s: Seq<char>)
    requires
        is_prefix(r, q),
        is_prefix(q, s),
    ensures
        is_prefix(r, s),
{
    assert(s.subrange(0, r.len() as int) =~= q.subrange(0, r.len() as int));
}

fn up_to_last_vec(s: &[char], c: char) -> (v: Vec<char>)
    ensures
        v@ == up_to_last(s@, c),
{
    let mut k: usize = s.len();
    assert(s@.subrange(0, s.len() as int) =~= s@);
    while k > 0 && s[k - 1] != c
        invariant
            k <= s.len(),
            up_to_last(s@, c) == up_to_last(s@.subrange(0, k as int), c),
        decreases k,
    {
        assert(s@.subrange(0, k as int).drop_last() =~= s@.subrange(0, k - 1));
        k = k - 1;
    }
    slice_vec(s, 0, k)
}

/// Return the path prefix before the first component containing `*` or `?`.
pub fn literal_prefix(pattern: &str) -> (r: &str)
    ensures
        r@ == literal_prefix_of(pattern@),
{
    let p = chars_of(pattern);
    let t = vec_trim_end_char(&p, '/');
    let head = vec_before_either(&t, '*', '?');
    let result = if head.len() == t.len() {
        t
    } else {
        let upto = up_to_last_vec(&head, '/');
        vec_trim_end_char(&upto, '/')
    };
    proof {
        let tt = trim_end_char(pattern@, '/');
        let hh = before_either(tt, '*', '?');
        lemma_trim_end_char_prefix(pattern@, '/');
        lemma_before_either_prefix(tt, '*', '?');
        lemma_up_to_last_prefix(hh, '/');
        lemma_trim_end_char_prefix(up_to_last(hh, '/'), '/');
        lemma_prefix_trans(hh, tt, pattern@);
        lemma_prefix_trans(up_to_last(hh, '/'), hh, pattern@);
        lemma_prefix_trans(trim_end_char(up_to_last(hh, '/'), '/'), up_to_last(hh, '/'), pattern@);
    }
    pattern.substring_char(0, result.len())
}

/// Literal prefixes whose shared components agree.
pub open spec fn components_agree(x: Seq<Seq<char>>, y: Seq<Seq<char>>) -> bool {
    forall|i: int| 0 <= i < x.len() && i < y.len() ==> x[i] == y[i]
}

/// Advisory overlap: a direct match either way, an empty literal prefix, or
/// literal prefixes that agree on every shared component.
pub open spec fn claims_overlap(a: Seq<char>, b: Seq<char>) -> bool {
    ||| path_matches(a, b)
    ||| path_matches(b, a)
    ||| {
        let la = literal_prefix_of(a);
        let lb = literal_prefix_of(b);
        la.len() == 0 || lb.len() == 0 || components_agree(split(la, '/'), split(lb, '/'))
    }
}

/// Overlap is symmetric and reflexive, and a direct match either way is
/// an overlap.
pub proof fn lemma_overlap_laws(a: Seq<char>, b: Seq<char>)
    ensures
        claims_overlap(a, b) == claims_overlap(b, a),
        claims_overlap(a, a),
        path_matches(a, b) || path_matches(b, a) ==> claims_overlap(a, b),
{
    let la = literal_prefix_of(a);
    let lb = literal_prefix_of(b);
    assert(components_agree(split(la, '/'), split(lb, '/')) == components_agree(split(lb, '/'), split(la, '/')));
    assert(components_agree(split(la, '/'), split(la, '/')));
}

/// Advisory overlap: direct match, or shared literal path-component prefix.
pub fn overlaps(a: &str, b: &str) -> (r: bool)
    ensures
        r == claims_overlap(a@, b@),
{
    if matches(a, b) || matches(b, a) {
        return true;
    }
    let la = chars_of(literal_prefix(a));
    let lb = chars_of(literal_prefix(b));
    if la.len() == 0 || lb.len() == 0 {
        return true;
    }
    let xs = split_vec(&la, '/');
    let ys = split_vec(&lb, '/');
    let ghost xv = split(la@, '/');
    let ghost yv = split(lb@, '/');
    let mut i: usize = 0;
    while i < xs.len() && i < ys.len()
        invariant
            la@ == literal_prefix_of(a@),
            lb@ == literal_prefix_of(b@),
            la@.len() > 0,
            lb@.len() > 0,
            !path_matches(a@, b@),
            !path_matches(b@, a@),
            xv == split(la@, '/'),
            yv == split(lb@, '/'),
            i <= xs.len(),
            i <= ys.len(),
            xs@.len() == xv.len(),
            ys@.len() == yv.len(),
            forall|k: int| 0 <= k < xs@.len() ==> #[trigger] xs@[k]@ == xv[k],
            forall|k: int| 0 <= k < ys@.len() ==> #[trigger] ys@[k]@ == yv[k],
            forall|k: int| 0 <= k < i ==> xv[k] == yv[k],
        decreases xs.len() - i,
    {
        if !vec_eq(&xs[i], &ys[i]) {
            assert(xs@[i as int]@ == xv[i as int]);
            assert(ys@[i as int]@ == yv[i as int]);
            assert(!components_agree(xv, yv));
            return false;
        }
        i = i + 1;
    }
    true
}

/// A pattern that names a safe relative repository path: not empty, no
/// surrounding whitespace, not absolute, no `\\`, no `..` component.
pub open spec fn valid_pattern(p: Seq<char>) -> bool {
    &&& p.len() > 0
    &&& trim(p) == p
    &&& p[0] != '/'
    &&& !has_char(p, '\\')
    &&& forall|i: int| 0 <= i < split(p, '/').len() ==> #[trigger] split(p, '/')[i] != seq!['.', '.']
}

/// Reject patterns that cannot name a safe relative repository path.
pub fn validate_pattern(pattern: &str) -> (r: Result<(), Error>)
    ensures
        match r {
            Ok(()) => valid_pattern(pattern@),
            Err(e) => !valid_pattern(pattern@) && (e matches Error::InvalidConfig(m) && m@
                == "invalid claim pattern: "@ + spec_debug_str(pattern@)),
        },
{
    let p = chars_of(pattern);
    let mut ok = p.len() > 0;
    if ok {
        let t = trim_vec(&p);
        ok = vec_eq(&t, &p) && p[0] != '/' && !vec_has_char(&p, '\\');
    }
    if ok {
        let parts = split_vec(&p, '/');
        let dots = vec!['.', '.'];
        assert(dots@ =~= seq!['.', '.']);
        let mut i: usize = 0;
        let mut found = false;
        while i < parts.len() && !found
            invariant
                i <= parts.len(),
                dots@ == seq!['.', '.'],
                parts@.len() == split(p@, '/').len(),
                forall|k: int| 0 <= k < parts@.len() ==> #[trigger] parts@[k]@ == split(p@, '/')[k],
                !found ==> forall|k: int| 0 <= k < i ==> #[trigger] split(p@, '/')[k] != seq!['.', '.'],
                found ==> exists|k: int| 0 <= k < parts@.len() && #[trigger] split(p@, '/')[k] == seq!['.', '.'],
            decreases parts.len() - i,
        {
            if vec_eq(&parts[i], &dots) {
                assert(parts@[i as int]@ == split(p@, '/')[i as int]);
                found = true;
            }
            i = i + 1;
        }
        ok = !found;
    }
    if ok {
        Ok(())
    } else {
        let mut m = String::new();
        m.append("invalid claim pattern: ");
        let d = debug_str(pattern);
        m.append(d.as_str());
        Err(Error::InvalidConfig(m))
    }
}

} // verus!
