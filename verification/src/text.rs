//! Character-level text helpers with specifications over `Seq<char>`.

use vstd::prelude::*;

verus! {

// ---------------------------------------------------------------------------
// Character classes
// ---------------------------------------------------------------------------

/// `char::is_whitespace`: the Unicode `White_Space` property.
pub open spec fn is_ws(c: char) -> bool {
    let n = c as u32;
    ||| (0x09 <= n && n <= 0x0D)
    ||| n == 0x20
    ||| n == 0x85
    ||| n == 0xA0
    ||| n == 0x1680
    ||| (0x2000 <= n && n <= 0x200A)
    ||| n == 0x2028
    ||| n == 0x2029
    ||| n == 0x202F
    ||| n == 0x205F
    ||| n == 0x3000
}

pub open spec fn is_digit(c: char) -> bool {
    '0' <= c && c <= '9'
}

pub open spec fn is_lower(c: char) -> bool {
    'a' <= c && c <= 'z'
}

pub open spec fn is_upper(c: char) -> bool {
    'A' <= c && c <= 'Z'
}

pub open spec fn is_alpha(c: char) -> bool {
    is_lower(c) || is_upper(c)
}

pub open spec fn is_alnum(c: char) -> bool {
    is_alpha(c) || is_digit(c)
}

pub open spec fn is_hex_lower(c: char) -> bool {
    is_digit(c) || ('a' <= c && c <= 'f')
}

pub fn char_is_ws(c: char) -> (b: bool)
    ensures
        b == is_ws(c),
{
    let n = c as u32;
    (0x09 <= n && n <= 0x0D) || n == 0x20 || n == 0x85 || n == 0xA0 || n == 0x1680 || (0x2000
        <= n && n <= 0x200A) || n == 0x2028 || n == 0x2029 || n == 0x202F || n == 0x205F || n
        == 0x3000
}

pub fn char_is_digit(c: char) -> (b: bool)
    ensures
        b == is_digit(c),
{
    '0' <= c && c <= '9'
}

pub fn char_is_lower(c: char) -> (b: bool)
    ensures
        b == is_lower(c),
{
    'a' <= c && c <= 'z'
}

pub fn char_is_upper(c: char) -> (b: bool)
    ensures
        b == is_upper(c),
{
    'A' <= c && c <= 'Z'
}

pub fn char_is_alpha(c: char) -> (b: bool)
    ensures
        b == is_alpha(c),
{
    char_is_lower(c) || char_is_upper(c)
}

pub fn char_is_alnum(c: char) -> (b: bool)
    ensures
        b == is_alnum(c),
{
    char_is_alpha(c) || char_is_digit(c)
}

// ---------------------------------------------------------------------------
// Sequence predicates and slicing
// ---------------------------------------------------------------------------

pub open spec fn starts_with(s: Seq<char>, p: Seq<char>) -> bool {
    p.len() <= s.len() && s.subrange(0, p.len() as int) == p
}

pub open spec fn ends_with(s: Seq<char>, p: Seq<char>) -> bool {
    p.len() <= s.len() && s.subrange(s.len() - p.len(), s.len() as int) == p
}

/// `str::strip_prefix`.
pub open spec fn strip_prefix(s: Seq<char>, p: Seq<char>) -> Option<Seq<char>> {
    if starts_with(s, p) {
        Some(s.subrange(p.len() as int, s.len() as int))
    } else {
        None
    }
}

/// `str::strip_suffix`.
pub open spec fn strip_suffix(s: Seq<char>, p: Seq<char>) -> Option<Seq<char>> {
    if ends_with(s, p) {
        Some(s.subrange(0, s.len() - p.len()))
    } else {
        None
    }
}

/// `p` occurs somewhere in `s`.
pub open spec fn occurs_at(s: Seq<char>, p: Seq<char>, i: int) -> bool {
    0 <= i && i + p.len() <= s.len() && s.subrange(i, i + p.len()) == p
}

pub open spec fn contains(s: Seq<char>, p: Seq<char>) -> bool {
    exists|i: int| occurs_at(s, p, i)
}

pub open spec fn has_char(s: Seq<char>, c: char) -> bool {
    exists|i: int| 0 <= i < s.len() && s[i] == c
}

pub fn vec_starts_with(s: &[char], p: &[char]) -> (b: bool)
    ensures
        b == starts_with(s@, p@),
{
    if p.len() > s.len() {
        return false;
    }
    let mut i: usize = 0;
    while i < p.len()
        invariant
            p.len() <= s.len(),
            i <= p.len(),
            forall|j: int| 0 <= j < i ==> s@[j] == p@[j],
        decreases p.len() - i,
    {
        if s[i] != p[i] {
            assert(s@.subrange(0, p.len() as int)[i as int] != p@[i as int]);
            return false;
        }
        i = i + 1;
    }
    assert(s@.subrange(0, p.len() as int) =~= p@);
    true
}

/// `s` starts with `p` at position `at`.
pub fn vec_occurs_at(s: &[char], p: &[char], at: usize) -> (b: bool)
    ensures
        b == occurs_at(s@, p@, at as int),
{
    if at > s.len() || p.len() > s.len() - at {
        return false;
    }
    let mut i: usize = 0;
    while i < p.len()
        invariant
            at + p.len() <= s.len(),
            i <= p.len(),
            forall|j: int| 0 <= j < i ==> s@[at + j] == p@[j],
        decreases p.len() - i,
    {
        if s[at + i] != p[i] {
            assert(s@.subrange(at as int, at + p.len())[i as int] != p@[i as int]);
            return false;
        }
        i = i + 1;
    }
    assert(s@.subrange(at as int, at + p.len()) =~= p@);
    true
}

pub fn vec_ends_with(s: &[char], p: &[char]) -> (b: bool)
    ensures
        b == ends_with(s@, p@),
{
    if p.len() > s.len() {
        return false;
    }
    vec_occurs_at(s, p, s.len() - p.len())
}

pub fn vec_contains(s: &[char], p: &[char]) -> (b: bool)
    ensures
        b == contains(s@, p@),
{
    if p.len() > s.len() {
        assert forall|i: int| !occurs_at(s@, p@, i) by {}
        return false;
    }
    let last = s.len() - p.len();
    let mut i: usize = 0;
    loop
        invariant_except_break
            p.len() <= s.len(),
            last == s.len() - p.len(),
            i <= last,
            forall|j: int| 0 <= j < i ==> !occurs_at(s@, p@, j),
        ensures
            forall|j: int| 0 <= j <= last ==> !occurs_at(s@, p@, j),
        decreases last - i,
    {
        if vec_occurs_at(s, p, i) {
            return true;
        }
        if i == last {
            break;
        }
        i = i + 1;
    }
    assert forall|j: int| !occurs_at(s@, p@, j) by {
        if 0 <= j <= last {
        }
    }
    false
}

pub fn vec_has_char(s: &[char], c: char) -> (b: bool)
    ensures
        b == has_char(s@, c),
{
    let mut i: usize = 0;
    while i < s.len()
        invariant
            i <= s.len(),
            forall|j: int| 0 <= j < i ==> s@[j] != c,
        decreases s.len() - i,
    {
        if s[i] == c {
            return true;
        }
        i = i + 1;
    }
    false
}

/// A copy of `s[from..to]`.
pub fn slice_vec(s: &[char], from: usize, to: usize) -> (v: Vec<char>)
    requires
        from <= to <= s.len(),
    ensures
        v@ == s@.subrange(from as int, to as int),
{
    let mut v: Vec<char> = Vec::new();
    let mut i: usize = from;
    while i < to
        invariant
            from <= i <= to <= s.len(),
            v@ == s@.subrange(from as int, i as int),
        decreases to - i,
    {
        v.push(s[i]);
        assert(s@.subrange(from as int, i as int).push(s@[i as int]) =~= s@.subrange(
            from as int,
            i + 1,
        ));
        i = i + 1;
    }
    v
}

/// `v` followed by `w`.
pub fn extend_vec(v: &mut Vec<char>, w: &[char])
    ensures
        final(v)@ == old(v)@ + w@,
{
    let ghost start = v@;
    let mut i: usize = 0;
    while i < w.len()
        invariant
            i <= w.len(),
            v@ == start + w@.take(i as int),
        decreases w.len() - i,
    {
        v.push(w[i]);
        assert(start + w@.take(i as int).push(w@[i as int]) =~= start + w@.take(i + 1));
        i = i + 1;
    }
    assert(w@.take(w.len() as int) =~= w@);
}

// ---------------------------------------------------------------------------
// Trimming
// ---------------------------------------------------------------------------

/// `str::trim_start`.
pub open spec fn trim_start(s: Seq<char>) -> Seq<char>
    decreases s.len(),
{
    if s.len() > 0 && is_ws(s[0]) {
        trim_start(s.drop_first())
    } else {
        s
    }
}

/// `str::trim_end`.
pub open spec fn trim_end(s: Seq<char>) -> Seq<char>
    decreases s.len(),
{
    if s.len() > 0 && is_ws(s.last()) {
        trim_end(s.drop_last())
    } else {
        s
    }
}

/// `str::trim`.
pub open spec fn trim(s: Seq<char>) -> Seq<char> {
    trim_end(trim_start(s))
}

/// Whether the text is empty after trimming.
pub open spec fn is_blank(s: Seq<char>) -> bool {
    forall|i: int| 0 <= i < s.len() ==> is_ws(#[trigger] s[i])
}

pub proof fn lemma_trim_start_from(s: Seq<char>, i: int)
    requires
        0 <= i <= s.len(),
        forall|j: int| 0 <= j < i ==> is_ws(#[trigger] s[j]),
    ensures
        trim_start(s) == trim_start(s.subrange(i, s.len() as int)),
    decreases i,
{
    if i > 0 {
        assert(s.drop_first() =~= s.subrange(1, s.len() as int));
        lemma_trim_start_from(s.drop_first(), i - 1);
        assert(s.drop_first().subrange(i - 1, s.drop_first().len() as int) =~= s.subrange(
            i,
            s.len() as int,
        ));
    } else {
        assert(s.subrange(0, s.len() as int) =~= s);
    }
}

pub proof fn lemma_trim_end_to(s: Seq<char>, k: int)
    requires
        0 <= k <= s.len(),
        forall|j: int| k <= j < s.len() ==> is_ws(#[trigger] s[j]),
    ensures
        trim_end(s) == trim_end(s.subrange(0, k)),
    decreases s.len() - k,
{
    if k < s.len() {
        lemma_trim_end_to(s.drop_last(), k);
        assert(s.drop_last().subrange(0, k) =~= s.subrange(0, k));
    } else {
        assert(s.subrange(0, k) =~= s);
    }
}

/// Index of the first non-whitespace character (or `len`).
pub fn trim_start_index(s: &[char]) -> (i: usize)
    ensures
        i <= s.len(),
        trim_start(s@) == s@.subrange(i as int, s.len() as int),
        forall|j: int| 0 <= j < i ==> is_ws(#[trigger] s@[j]),
        i < s.len() ==> !is_ws(s@[i as int]),
{
    let mut i: usize = 0;
    while i < s.len() && char_is_ws(s[i])
        invariant
            i <= s.len(),
            forall|j: int| 0 <= j < i ==> is_ws(#[trigger] s@[j]),
        decreases s.len() - i,
    {
        i = i + 1;
    }
    proof {
        lemma_trim_start_from(s@, i as int);
        let t = s@.subrange(i as int, s.len() as int);
        if t.len() > 0 {
            assert(t[0] == s@[i as int]);
        }
    }
    i
}

/// End (exclusive) of `s[..]` without trailing whitespace.
pub fn trim_end_index(s: &[char]) -> (k: usize)
    ensures
        k <= s.len(),
        trim_end(s@) == s@.subrange(0, k as int),
        forall|j: int| k <= j < s.len() ==> is_ws(#[trigger] s@[j]),
        k > 0 ==> !is_ws(s@[k - 1]),
{
    let mut k: usize = s.len();
    while k > 0 && char_is_ws(s[k - 1])
        invariant
            k <= s.len(),
            forall|j: int| k <= j < s.len() ==> is_ws(#[trigger] s@[j]),
        decreases k,
    {
        k = k - 1;
    }
    proof {
        lemma_trim_end_to(s@, k as int);
        let t = s@.subrange(0, k as int);
        if t.len() > 0 {
            assert(t.last() == s@[k - 1]);
        }
    }
    k
}

pub fn trim_start_vec(s: &[char]) -> (v: Vec<char>)
    ensures
        v@ == trim_start(s@),
{
    let i = trim_start_index(s);
    slice_vec(s, i, s.len())
}

pub fn trim_end_vec(s: &[char]) -> (v: Vec<char>)
    ensures
        v@ == trim_end(s@),
{
    let k = trim_end_index(s);
    slice_vec(s, 0, k)
}

pub fn trim_vec(s: &[char]) -> (v: Vec<char>)
    ensures
        v@ == trim(s@),
{
    let a = trim_start_vec(s);
    trim_end_vec(&a)
}

pub proof fn lemma_blank_trim(s: Seq<char>)
    ensures
        is_blank(s) <==> trim(s).len() == 0,
        is_blank(s) <==> trim_start(s).len() == 0,
    decreases s.len(),
{
    if s.len() > 0 {
        lemma_blank_trim(s.drop_first());
        if is_ws(s[0]) {
            assert(is_blank(s) <==> is_blank(s.drop_first())) by {
                if is_blank(s.drop_first()) {
                    assert forall|i: int| 0 <= i < s.len() implies is_ws(#[trigger] s[i]) by {
                        if i > 0 {
                            assert(s[i] == s.drop_first()[i - 1]);
                        }
                    }
                }
                if is_blank(s) {
                    assert forall|i: int| 0 <= i < s.drop_first().len() implies is_ws(
                        #[trigger] s.drop_first()[i],
                    ) by {
                        assert(s.drop_first()[i] == s[i + 1]);
                    }
                }
            }
        } else {
            assert(!is_blank(s));
            let t = trim_start(s);
            assert(t == s);
            lemma_trim_end_nonempty(s);
        }
    }
}

pub proof fn lemma_trim_end_nonempty(s: Seq<char>)
    requires
        s.len() > 0,
        !is_ws(s[0]),
    ensures
        trim_end(s).len() > 0,
    decreases s.len(),
{
    if is_ws(s.last()) {
        lemma_trim_end_nonempty(s.drop_last());
    }
}

/// Whether `s` holds only whitespace.
pub fn vec_is_blank(s: &[char]) -> (b: bool)
    ensures
        b == is_blank(s@),
{
    let i = trim_start_index(s);
    i == s.len()
}

// ---------------------------------------------------------------------------
// Splitting and joining
// ---------------------------------------------------------------------------

/// `str::split(c)`: the pieces between occurrences of `c`.
pub open spec fn split(s: Seq<char>, c: char) -> Seq<Seq<char>>
    decreases s.len(),
{
    if s.len() == 0 {
        seq![Seq::<char>::empty()]
    } else if s.last() == c {
        split(s.drop_last(), c).push(Seq::<char>::empty())
    } else {
        let r = split(s.drop_last(), c);
        r.update(r.len() - 1, r.last().push(s.last()))
    }
}

pub proof fn lemma_split_nonempty(s: Seq<char>, c: char)
    ensures
        split(s, c).len() >= 1,
    decreases s.len(),
{
    if s.len() > 0 {
        lemma_split_nonempty(s.drop_last(), c);
    }
}

/// `str::split(c)`.
pub fn split_vec(s: &[char], c: char) -> (r: Vec<Vec<char>>)
    ensures
        r@.len() == split(s@, c).len(),
        forall|i: int| 0 <= i < r@.len() ==> #[trigger] r@[i]@ == split(s@, c)[i],
{
    let mut r: Vec<Vec<char>> = Vec::new();
    let mut cur: Vec<char> = Vec::new();
    let mut i: usize = 0;
    assert(s@.take(0) =~= Seq::<char>::empty());
    while i < s.len()
        invariant
            i <= s.len(),
            r@.len() + 1 == split(s@.take(i as int), c).len(),
            forall|j: int| 0 <= j < r@.len() ==> #[trigger] r@[j]@ == split(s@.take(i as int), c)[j],
            cur@ == split(s@.take(i as int), c).last(),
        decreases s.len() - i,
    {
        proof {
            lemma_split_nonempty(s@.take(i as int), c);
            assert(s@.take(i + 1).drop_last() =~= s@.take(i as int));
            assert(s@.take(i + 1).last() == s@[i as int]);
        }
        if s[i] == c {
            let mut done: Vec<char> = Vec::new();
            std::mem::swap(&mut done, &mut cur);
            r.push(done);
        } else {
            cur.push(s[i]);
        }
        i = i + 1;
    }
    assert(s@.take(s.len() as int) =~= s@);
    r.push(cur);
    r
}

/// Pieces joined with `sep` between them.
pub open spec fn join(parts: Seq<Seq<char>>, sep: Seq<char>) -> Seq<char>
    decreases parts.len(),
{
    if parts.len() == 0 {
        Seq::<char>::empty()
    } else if parts.len() == 1 {
        parts[0]
    } else {
        join(parts.drop_last(), sep) + sep + parts.last()
    }
}

/// Joins `parts` with `sep`.
pub fn join_vec(parts: &Vec<Vec<char>>, sep: &[char]) -> (out: Vec<char>)
    ensures
        out@ == join(parts@.map_values(|p: Vec<char>| p@), sep@),
{
    let ghost views = parts@.map_values(|p: Vec<char>| p@);
    let mut out: Vec<char> = Vec::new();
    let mut i: usize = 0;
    while i < parts.len()
        invariant
            i <= parts.len(),
            views == parts@.map_values(|p: Vec<char>| p@),
            out@ == join(views.take(i as int), sep@),
        decreases parts.len() - i,
    {
        assert(views.take(i + 1).drop_last() =~= views.take(i as int));
        if i > 0 {
            extend_vec(&mut out, sep);
        }
        extend_vec(&mut out, &parts[i]);
        assert(views.take(i + 1).last() == parts@[i as int]@);
        if i == 0 {
            assert(views.take(1)[0] == views[0]);
            assert(out@ =~= join(views.take(1), sep@));
        }
        i = i + 1;
    }
    assert(views.take(parts.len() as int) =~= views);
    out
}

/// Index of the first `c` in `s`.
pub open spec fn find_char(s: Seq<char>, c: char) -> Option<int>
    decreases s.len(),
{
    if s.len() == 0 {
        None
    } else if s[0] == c {
        Some(0)
    } else {
        match find_char(s.drop_first(), c) {
            Some(i) => Some(i + 1),
            None => None,
        }
    }
}

pub proof fn lemma_find_char(s: Seq<char>, c: char)
    ensures
        match find_char(s, c) {
            Some(i) => 0 <= i < s.len() && s[i] == c && forall|j: int| 0 <= j < i ==> s[j] != c,
            None => forall|j: int| 0 <= j < s.len() ==> s[j] != c,
        },
    decreases s.len(),
{
    if s.len() > 0 && s[0] != c {
        lemma_find_char(s.drop_first(), c);
        match find_char(s.drop_first(), c) {
            Some(i) => {
                assert forall|j: int| 0 <= j < i + 1 implies s[j] != c by {
                    if j > 0 {
                        assert(s[j] == s.drop_first()[j - 1]);
                    }
                }
            },
            None => {
                assert forall|j: int| 0 <= j < s.len() implies s[j] != c by {
                    if j > 0 {
                        assert(s[j] == s.drop_first()[j - 1]);
                    }
                }
            },
        }
    }
}

pub proof fn lemma_find_char_unique(s: Seq<char>, c: char, i: int)
    requires
        0 <= i < s.len(),
        s[i] == c,
        forall|j: int| 0 <= j < i ==> s[j] != c,
    ensures
        find_char(s, c) == Some(i),
{
    lemma_find_char(s, c);
    match find_char(s, c) {
        Some(k) => {
            if k < i {
                assert(s[k] != c);
            } else if k > i {
                assert(s[i] != c);
            }
        },
        None => {
            assert(s[i] != c);
        },
    }
}

/// Index of the first `c`.
pub fn vec_find_char(s: &[char], c: char) -> (r: Option<usize>)
    ensures
        match r {
            Some(i) => find_char(s@, c) == Some(i as int),
            None => find_char(s@, c) is None,
        },
{
    let mut i: usize = 0;
    while i < s.len()
        invariant
            i <= s.len(),
            forall|j: int| 0 <= j < i ==> s@[j] != c,
        decreases s.len() - i,
    {
        if s[i] == c {
            proof {
                lemma_find_char_unique(s@, c, i as int);
            }
            return Some(i);
        }
        i = i + 1;
    }
    proof {
        lemma_find_char(s@, c);
        if let Some(k) = find_char(s@, c) {
            assert(s@[k] != c);
        }
    }
    None
}

/// `str::split_once(c)`.
pub open spec fn split_once(s: Seq<char>, c: char) -> Option<(Seq<char>, Seq<char>)> {
    match find_char(s, c) {
        Some(i) => Some((s.subrange(0, i), s.subrange(i + 1, s.len() as int))),
        None => None,
    }
}

pub fn vec_split_once(s: &[char], c: char) -> (r: Option<(Vec<char>, Vec<char>)>)
    ensures
        match r {
            Some(p) => split_once(s@, c) == Some((p.0@, p.1@)),
            None => split_once(s@, c) is None,
        },
{
    match vec_find_char(s, c) {
        Some(i) => {
            proof {
                lemma_find_char(s@, c);
            }
            assert(i < s.len());
            Some((slice_vec(s, 0, i), slice_vec(s, i + 1, s.len())))
        },
        None => None,
    }
}

/// `str::replace("\r\n", "\n")`.
pub open spec fn crlf_to_lf(s: Seq<char>) -> Seq<char>
    decreases s.len(),
{
    if s.len() == 0 {
        s
    } else if s.len() >= 2 && s[0] == '\r' && s[1] == '\n' {
        seq!['\n'] + crlf_to_lf(s.subrange(2, s.len() as int))
    } else {
        seq![s[0]] + crlf_to_lf(s.drop_first())
    }
}

pub fn vec_crlf_to_lf(s: &[char]) -> (out: Vec<char>)
    ensures
        out@ == crlf_to_lf(s@),
{
    let mut out: Vec<char> = Vec::new();
    let mut i: usize = 0;
    assert(s@.subrange(0, s.len() as int) =~= s@);
    while i < s.len()
        invariant
            i <= s.len(),
            crlf_to_lf(s@) == out@ + crlf_to_lf(s@.subrange(i as int, s.len() as int)),
        decreases s.len() - i,
    {
        let ghost rest = s@.subrange(i as int, s.len() as int);
        if i + 1 < s.len() && s[i] == '\r' && s[i + 1] == '\n' {
            assert(rest.subrange(2, rest.len() as int) =~= s@.subrange(i + 2, s.len() as int));
            out.push('\n');
            i = i + 2;
        } else {
            assert(rest.drop_first() =~= s@.subrange(i + 1, s.len() as int));
            out.push(s[i]);
            i = i + 1;
        }
    }
    assert(s@.subrange(s.len() as int, s.len() as int) =~= Seq::<char>::empty());
    out
}

/// Drops one trailing `\r`.
pub open spec fn strip_cr(s: Seq<char>) -> Seq<char> {
    if s.len() > 0 && s.last() == '\r' {
        s.drop_last()
    } else {
        s
    }
}

/// `str::lines`: split at `\n`, one trailing `\r` removed from every line
/// that ends with `\n`, and no empty line after a final `\n`.
pub open spec fn lines(s: Seq<char>) -> Seq<Seq<char>> {
    let parts = split(s, '\n');
    let n = parts.len() as int;
    let body = Seq::new((n - 1) as nat, |i: int| strip_cr(parts[i]));
    if parts[n - 1].len() == 0 {
        body
    } else {
        body.push(parts[n - 1])
    }
}

pub fn lines_vec(s: &[char]) -> (r: Vec<Vec<char>>)
    ensures
        r@.len() == lines(s@).len(),
        forall|i: int| 0 <= i < r@.len() ==> #[trigger] r@[i]@ == lines(s@)[i],
{
    let parts = split_vec(s, '\n');
    proof {
        lemma_split_nonempty(s@, '\n');
    }
    let n = parts.len();
    let mut r: Vec<Vec<char>> = Vec::new();
    let mut i: usize = 0;
    while i + 1 < n
        invariant
            n == parts@.len(),
            n >= 1,
            n == split(s@, '\n').len(),
            forall|j: int| 0 <= j < n ==> #[trigger] parts@[j]@ == split(s@, '\n')[j],
            i + 1 <= n,
            r@.len() == i,
            forall|j: int| 0 <= j < i ==> #[trigger] r@[j]@ == strip_cr(split(s@, '\n')[j]),
        decreases n - i,
    {
        let p = &parts[i];
        assert(p@ == split(s@, '\n')[i as int]);
        if p.len() > 0 && p[p.len() - 1] == '\r' {
            r.push(slice_vec(p, 0, p.len() - 1));
        } else {
            r.push(slice_vec(p, 0, p.len()));
        }
        i = i + 1;
    }
    let last = &parts[n - 1];
    if last.len() > 0 {
        r.push(slice_vec(last, 0, last.len()));
    }
    r
}

/// Builds a `String` from characters.
pub fn string_of(v: &[char]) -> (s: String)
    ensures
        s@ == v@,
{
    let mut s = String::new();
    let mut i: usize = 0;
    while i < v.len()
        invariant
            i <= v.len(),
            s@ == v@.take(i as int),
        decreases v.len() - i,
    {
        push_char(&mut s, v[i]);
        assert(v@.take(i as int).push(v@[i as int]) == v@.take(i + 1));
        i = i + 1;
    }
    assert(v@.take(v.len() as int) == v@);
    s
}

/// Appends one character to a `String` (`String::push`).
#[verifier::external_body]
pub(crate) fn push_char(s: &mut String, c: char)
    ensures
        final(s)@ == old(s)@.push(c),
{
    s.push(c);
}

/// The characters of `s`, in order.
pub fn chars_of(s: &str) -> (v: Vec<char>)
    ensures
        v@ == s@,
{
    let mut v: Vec<char> = Vec::new();
    for c in it: s.chars()
        invariant
            v@ == it.seq().take(it.index() as int),
            it.seq() == s@,
    {
        v.push(c);
    }
    v
}

/// The views of a sequence of character vectors.
pub open spec fn vv(v: Seq<Vec<char>>) -> Seq<Seq<char>> {
    v.map_values(|x: Vec<char>| x@)
}

/// The views of a sequence of strings.
pub open spec fn sv(v: Seq<String>) -> Seq<Seq<char>> {
    v.map_values(|x: String| x@)
}

/// Joins strings with `sep` between them.
pub fn join_strings(parts: &Vec<String>, sep: &str) -> (out: String)
    ensures
        out@ == join(sv(parts@), sep@),
{
    let ghost views = sv(parts@);
    let mut out = String::new();
    let mut i: usize = 0;
    while i < parts.len()
        invariant
            i <= parts.len(),
            views == sv(parts@),
            out@ == join(views.take(i as int), sep@),
        decreases parts.len() - i,
    {
        assert(views.take(i + 1).drop_last() =~= views.take(i as int));
        if i > 0 {
            out.append(sep);
        }
        out.append(parts[i].as_str());
        assert(views.take(i + 1).last() == parts@[i as int]@);
        if i == 0 {
            assert(views.take(1)[0] == views[0]);
            assert(out@ =~= join(views.take(1), sep@));
        }
        i = i + 1;
    }
    assert(views.take(parts.len() as int) =~= views);
    out
}

/// A copy of a character vector.
pub fn copy_vec(v: &[char]) -> (w: Vec<char>)
    ensures
        w@ == v@,
{
    let w = slice_vec(v, 0, v.len());
    assert(v@.subrange(0, v@.len() as int) =~= v@);
    w
}

/// Appends the characters of `s`.
pub fn push_str(v: &mut Vec<char>, s: &str)
    ensures
        final(v)@ == old(v)@ + s@,
{
    let cs = chars_of(s);
    extend_vec(v, &cs);
}

/// Whether two character vectors are equal.
pub fn vec_eq(a: &[char], b: &[char]) -> (r: bool)
    ensures
        r == (a@ == b@),
{
    if a.len() != b.len() {
        return false;
    }
    let mut i: usize = 0;
    while i < a.len()
        invariant
            a.len() == b.len(),
            i <= a.len(),
            forall|j: int| 0 <= j < i ==> a@[j] == b@[j],
        decreases a.len() - i,
    {
        if a[i] != b[i] {
            return false;
        }
        i = i + 1;
    }
    assert(a@ =~= b@);
    true
}

/// Whether a string holds exactly the characters `b`.
pub fn str_eq(a: &str, b: &[char]) -> (r: bool)
    ensures
        r == (a@ == b@),
{
    let av = chars_of(a);
    vec_eq(&av, b)
}

/// `format!("{s:?}")`: the `Debug` form of a string (quoted and escaped).
pub uninterp spec fn spec_debug_str(s: Seq<char>) -> Seq<char>;

/// `<str as Debug>::fmt`: the quoted, escaped form of `s`. The escaping
/// rules are std's; the result is a function of `s` alone.
#[verifier::external_body]
pub(crate) fn debug_str(s: &str) -> (r: String)
    ensures
        r@ == spec_debug_str(s@),
{
    format!("{s:?}")
}

/// Index of the first occurrence of `p` in `s`.
pub open spec fn find_str(s: Seq<char>, p: Seq<char>) -> Option<int>
    decreases s.len(),
{
    if occurs_at(s, p, 0) {
        Some(0)
    } else if s.len() == 0 {
        None
    } else {
        match find_str(s.drop_first(), p) {
            Some(i) => Some(i + 1),
            None => None,
        }
    }
}

pub proof fn lemma_occurs_shift(s: Seq<char>, p: Seq<char>, i: int)
    requires
        s.len() > 0,
        i >= 1,
    ensures
        occurs_at(s, p, i) == occurs_at(s.drop_first(), p, i - 1),
{
    if occurs_at(s, p, i) {
        assert(s.drop_first().subrange(i - 1, i - 1 + p.len()) =~= s.subrange(i, i + p.len()));
    }
    if occurs_at(s.drop_first(), p, i - 1) {
        assert(s.drop_first().subrange(i - 1, i - 1 + p.len()) =~= s.subrange(i, i + p.len()));
    }
}

pub proof fn lemma_find_str(s: Seq<char>, p: Seq<char>, i: int)
    requires
        0 <= i <= s.len(),
        forall|j: int| 0 <= j < i ==> !occurs_at(s, p, j),
        occurs_at(s, p, i),
    ensures
        find_str(s, p) == Some(i),
    decreases i,
{
    if i > 0 {
        assert(!occurs_at(s, p, 0));
        assert forall|j: int| 0 <= j < i - 1 implies !occurs_at(s.drop_first(), p, j) by {
            lemma_occurs_shift(s, p, j + 1);
        }
        lemma_occurs_shift(s, p, i);
        lemma_find_str(s.drop_first(), p, i - 1);
    }
}

pub proof fn lemma_find_str_none(s: Seq<char>, p: Seq<char>)
    requires
        forall|j: int| 0 <= j <= s.len() ==> !occurs_at(s, p, j),
    ensures
        find_str(s, p) is None,
    decreases s.len(),
{
    if s.len() > 0 {
        assert(!occurs_at(s, p, 0));
        assert forall|j: int| 0 <= j <= s.drop_first().len() implies !occurs_at(
            s.drop_first(),
            p,
            j,
        ) by {
            lemma_occurs_shift(s, p, j + 1);
        }
        lemma_find_str_none(s.drop_first(), p);
    } else {
        assert(!occurs_at(s, p, 0));
    }
}

/// Index of the first occurrence of `p`.
pub fn vec_find_str(s: &[char], p: &[char]) -> (r: Option<usize>)
    ensures
        match r {
            Some(i) => find_str(s@, p@) == Some(i as int) && occurs_at(s@, p@, i as int),
            None => find_str(s@, p@) is None,
        },
{
    let mut i: usize = 0;
    while i < s.len()
        invariant
            i <= s.len(),
            forall|j: int| 0 <= j < i ==> !occurs_at(s@, p@, j),
        decreases s.len() - i,
    {
        if vec_occurs_at(s, p, i) {
            proof {
                lemma_find_str(s@, p@, i as int);
            }
            return Some(i);
        }
        i = i + 1;
    }
    if vec_occurs_at(s, p, i) {
        proof {
            lemma_find_str(s@, p@, i as int);
        }
        return Some(i);
    }
    proof {
        lemma_find_str_none(s@, p@);
    }
    None
}

/// `str::split_once(p)` for a string pattern.
pub open spec fn split_once_str(s: Seq<char>, p: Seq<char>) -> Option<(Seq<char>, Seq<char>)> {
    match find_str(s, p) {
        Some(i) => Some((s.subrange(0, i), s.subrange(i + p.len(), s.len() as int))),
        None => None,
    }
}

pub fn vec_split_once_str(s: &[char], p: &[char]) -> (r: Option<(Vec<char>, Vec<char>)>)
    ensures
        match r {
            Some(x) => split_once_str(s@, p@) == Some((x.0@, x.1@)),
            None => split_once_str(s@, p@) is None,
        },
{
    match vec_find_str(s, p) {
        Some(i) => {
            assert(i + p.len() <= s.len());
            Some((slice_vec(s, 0, i), slice_vec(s, i + p.len(), s.len())))
        },
        None => None,
    }
}

/// `char::to_ascii_lowercase`.
pub open spec fn ascii_lower(c: char) -> char {
    if is_upper(c) {
        ((c as u32) + 32) as char
    } else {
        c
    }
}

pub fn char_ascii_lower(c: char) -> (r: char)
    ensures
        r == ascii_lower(c),
{
    if char_is_upper(c) {
        ((c as u8) + 32) as char
    } else {
        c
    }
}

/// `str::eq_ignore_ascii_case`.
pub open spec fn eq_ignore_ascii_case(a: Seq<char>, b: Seq<char>) -> bool {
    a.len() == b.len() && forall|i: int| 0 <= i < a.len() ==> ascii_lower(a[i]) == ascii_lower(
        b[i],
    )
}

pub fn vec_eq_ignore_ascii_case(a: &[char], b: &[char]) -> (r: bool)
    ensures
        r == eq_ignore_ascii_case(a@, b@),
{
    if a.len() != b.len() {
        return false;
    }
    let mut i: usize = 0;
    while i < a.len()
        invariant
            a.len() == b.len(),
            i <= a.len(),
            forall|j: int| 0 <= j < i ==> ascii_lower(a@[j]) == ascii_lower(b@[j]),
        decreases a.len() - i,
    {
        if char_ascii_lower(a[i]) != char_ascii_lower(b[i]) {
            return false;
        }
        i = i + 1;
    }
    true
}

/// `str::trim_end_matches(c)`.
pub open spec fn trim_end_char(s: Seq<char>, c: char) -> Seq<char>
    decreases s.len(),
{
    if s.len() > 0 && s.last() == c {
        trim_end_char(s.drop_last(), c)
    } else {
        s
    }
}

pub fn vec_trim_end_char(s: &[char], c: char) -> (v: Vec<char>)
    ensures
        v@ == trim_end_char(s@, c),
{
    let mut k: usize = s.len();
    assert(s@.subrange(0, s.len() as int) =~= s@);
    while k > 0 && s[k - 1] == c
        invariant
            k <= s.len(),
            trim_end_char(s@, c) == trim_end_char(s@.subrange(0, k as int), c),
        decreases k,
    {
        assert(s@.subrange(0, k as int).drop_last() =~= s@.subrange(0, k - 1));
        k = k - 1;
    }
    slice_vec(s, 0, k)
}

/// Text after the last `c` (all of `s` without one).
pub open spec fn after_last(s: Seq<char>, c: char) -> Seq<char>
    decreases s.len(),
{
    if s.len() == 0 {
        s
    } else if s.last() == c {
        Seq::empty()
    } else {
        after_last(s.drop_last(), c).push(s.last())
    }
}

pub fn vec_after_last(s: &[char], c: char) -> (v: Vec<char>)
    ensures
        v@ == after_last(s@, c),
{
    let mut k: usize = s.len();
    assert(s@.subrange(0, s.len() as int) =~= s@);
    assert(s@.subrange(s.len() as int, s.len() as int) =~= Seq::<char>::empty());
    assert(s@ + Seq::<char>::empty() =~= s@);
    while k > 0 && s[k - 1] != c
        invariant
            k <= s.len(),
            after_last(s@, c) == after_last(s@.subrange(0, k as int), c) + s@.subrange(
                k as int,
                s.len() as int,
            ),
        decreases k,
    {
        let ghost t = s@.subrange(0, k as int);
        assert(t.drop_last() =~= s@.subrange(0, k - 1));
        assert(s@.subrange(k - 1, s.len() as int) =~= seq![s@[k - 1]] + s@.subrange(
            k as int,
            s.len() as int,
        ));
        assert(after_last(s@.subrange(0, k - 1), c).push(s@[k - 1]) + s@.subrange(
            k as int,
            s.len() as int,
        ) =~= after_last(s@.subrange(0, k - 1), c) + s@.subrange(k - 1, s.len() as int));
        k = k - 1;
    }
    assert(s@.subrange(0, s.len() as int) =~= s@);
    proof {
        if k > 0 {
            assert(s@.subrange(0, k as int).last() == c);
        }
        assert(after_last(s@.subrange(0, k as int), c) =~= Seq::<char>::empty());
    }
    slice_vec(s, k, s.len())
}

/// Text before the first `a` or `b`.
pub open spec fn before_either(s: Seq<char>, a: char, b: char) -> Seq<char>
    decreases s.len(),
{
    if s.len() == 0 || s[0] == a || s[0] == b {
        Seq::empty()
    } else {
        seq![s[0]] + before_either(s.drop_first(), a, b)
    }
}

pub fn vec_before_either(s: &[char], a: char, b: char) -> (v: Vec<char>)
    ensures
        v@ == before_either(s@, a, b),
{
    let mut i: usize = 0;
    assert(s@.subrange(0, s.len() as int) =~= s@);
    assert(s@.subrange(0, 0) + s@ =~= s@);
    while i < s.len() && s[i] != a && s[i] != b
        invariant
            i <= s.len(),
            before_either(s@, a, b) == s@.subrange(0, i as int) + before_either(
                s@.subrange(i as int, s.len() as int),
                a,
                b,
            ),
        decreases s.len() - i,
    {
        let ghost t = s@.subrange(i as int, s.len() as int);
        assert(t.drop_first() =~= s@.subrange(i + 1, s.len() as int));
        assert(s@.subrange(0, i as int) + seq![s@[i as int]] =~= s@.subrange(0, i + 1));
        i = i + 1;
    }
    proof {
        let t = s@.subrange(i as int, s.len() as int);
        assert(before_either(t, a, b) =~= Seq::<char>::empty());
        assert(s@.subrange(0, i as int) + Seq::<char>::empty() =~= s@.subrange(0, i as int));
    }
    slice_vec(s, 0, i)
}


// ---------------------------------------------------------------------------
// Decimal numbers
// ---------------------------------------------------------------------------

pub open spec fn dec_digit(n: int) -> char {
    (48 + n) as char
}

/// Decimal digits of `n` without leading zeros (`"0"` for zero).
pub open spec fn decimal(n: nat) -> Seq<char>
    decreases n,
{
    if n < 10 {
        seq![dec_digit(n as int)]
    } else {
        decimal(n / 10).push(dec_digit(n as int % 10))
    }
}

/// `n` in decimal, padded with leading zeros to at least `width` digits.
pub open spec fn zero_padded(n: nat, width: nat) -> Seq<char> {
    let d = decimal(n);
    if d.len() >= width {
        d
    } else {
        Seq::new((width - d.len()) as nat, |_i: int| '0') + d
    }
}

/// Value of a string of decimal digits.
pub open spec fn digits_num(s: Seq<char>) -> int
    decreases s.len(),
{
    if s.len() == 0 {
        0
    } else {
        digits_num(s.drop_last()) * 10 + (s.last() as int - 48)
    }
}

pub open spec fn only_digits(s: Seq<char>) -> bool {
    forall|i: int| 0 <= i < s.len() ==> is_digit(#[trigger] s[i])
}

pub proof fn lemma_decimal(n: nat)
    ensures
        digits_num(decimal(n)) == n,
        only_digits(decimal(n)),
        decimal(n).len() >= 1,
    decreases n,
{
    if n >= 10 {
        lemma_decimal(n / 10);
        assert(decimal(n).drop_last() =~= decimal(n / 10));
        let k = n as int % 10;
        assert(dec_digit(k) as int == 48 + k);
        assert(decimal(n).last() == dec_digit(k));
        assert(digits_num(decimal(n)) == digits_num(decimal(n / 10)) * 10 + (dec_digit(k) as int
            - 48));
        assert((n / 10) * 10 + k == n);
        assert forall|i: int| 0 <= i < decimal(n).len() implies is_digit(#[trigger] decimal(n)[i]) by {
            if i < decimal(n).len() - 1 {
                assert(decimal(n)[i] == decimal(n / 10)[i]);
            }
        }
    } else {
        assert(seq![dec_digit(n as int)].drop_last() =~= Seq::<char>::empty());
        assert(dec_digit(n as int) as int == 48 + n);
        assert(digits_num(decimal(n)) == digits_num(Seq::<char>::empty()) * 10 + (dec_digit(
            n as int,
        ) as int - 48));
    }
}

pub proof fn lemma_leading_zeros(z: Seq<char>, s: Seq<char>)
    requires
        forall|i: int| 0 <= i < z.len() ==> z[i] == '0',
    ensures
        digits_num(z + s) == digits_num(s),
    decreases s.len(),
{
    if s.len() == 0 {
        assert(z + s =~= z);
        lemma_zeros(z);
    } else {
        assert((z + s).drop_last() =~= z + s.drop_last());
        lemma_leading_zeros(z, s.drop_last());
    }
}

proof fn lemma_zeros(z: Seq<char>)
    requires
        forall|i: int| 0 <= i < z.len() ==> z[i] == '0',
    ensures
        digits_num(z) == 0,
    decreases z.len(),
{
    if z.len() > 0 {
        lemma_zeros(z.drop_last());
    }
}

pub proof fn lemma_zero_padded(n: nat, width: nat)
    ensures
        digits_num(zero_padded(n, width)) == n,
        only_digits(zero_padded(n, width)),
        zero_padded(n, width).len() >= width,
        zero_padded(n, width).len() >= 1,
{
    lemma_decimal(n);
    let d = decimal(n);
    if d.len() < width {
        let z = Seq::new((width - d.len()) as nat, |_i: int| '0');
        lemma_leading_zeros(z, d);
        assert forall|i: int| 0 <= i < (z + d).len() implies is_digit(#[trigger] (z + d)[i]) by {
            if i >= z.len() {
                assert((z + d)[i] == d[i - z.len()]);
            }
        }
    }
}

/// `n` in decimal (`u64`'s `Display`).
pub fn u64_decimal(n: u64) -> (s: String)
    ensures
        s@ == decimal(n as nat),
{
    let mut digits: Vec<char> = Vec::new();
    let mut m: u64 = n;
    // digits of n, least significant first
    loop
        invariant
            m <= n,
            decimal(n as nat) == decimal(m as nat) + digits@.reverse(),
        decreases m,
    {
        let c = ((48 + (m % 10)) as u8) as char;
        assert(c == dec_digit(m as int % 10));
        if m < 10 {
            assert(decimal(n as nat) == seq![c] + digits@.reverse());
            let mut out: Vec<char> = Vec::new();
            out.push(c);
            let mut i: usize = digits.len();
            while i > 0
                invariant
                    i <= digits.len(),
                    out@ == seq![c] + digits@.reverse().subrange(0, (digits.len() - i) as int),
                decreases i,
            {
                i = i - 1;
                out.push(digits[i]);
                assert(digits@.reverse().subrange(0, (digits.len() - i) as int) =~= digits@.reverse().subrange(
                    0,
                    (digits.len() - i - 1) as int,
                ).push(digits@[i as int]));
            }
            assert(digits@.reverse().subrange(0, digits.len() as int) =~= digits@.reverse());
            return string_of(&out);
        }
        let ghost old_digits = digits@;
        digits.push(c);
        assert(digits@.reverse() =~= seq![c] + old_digits.reverse());
        assert(decimal(m as nat) == decimal((m / 10) as nat).push(c));
        assert(decimal((m / 10) as nat).push(c) + old_digits.reverse() =~= decimal((m / 10) as nat)
            + (seq![c] + old_digits.reverse()));
        m = m / 10;
    }
}

/// `n` in decimal padded with zeros to `width` digits (`{n:0width$}`).
pub fn u64_zero_padded(n: u64, width: usize) -> (s: String)
    ensures
        s@ == zero_padded(n as nat, width as nat),
{
    let d = u64_decimal(n);
    let dv = chars_of(d.as_str());
    if dv.len() >= width {
        d
    } else {
        let mut out: Vec<char> = Vec::new();
        let k = width - dv.len();
        while out.len() < k
            invariant
                out.len() <= k,
                forall|i: int| 0 <= i < out.len() ==> out@[i] == '0',
            decreases k - out.len(),
        {
            out.push('0');
        }
        assert(out@ =~= Seq::new((width - dv.len()) as nat, |_i: int| '0'));
        extend_vec(&mut out, &dv);
        string_of(&out)
    }
}

/// Reads a string of decimal digits that fits in a `u32` (`str::parse::<u32>`
/// on digits only).
pub fn parse_u32_digits(s: &[char]) -> (r: Option<u32>)
    requires
        only_digits(s@),
    ensures
        match r {
            Some(v) => v == digits_num(s@),
            None => digits_num(s@) > u32::MAX,
        },
{
    let mut v: u64 = 0;
    let mut i: usize = 0;
    while i < s.len()
        invariant
            i <= s.len(),
            only_digits(s@),
            v == digits_num(s@.take(i as int)),
            v <= u32::MAX,
        decreases s.len() - i,
    {
        assert(s@.take(i + 1).drop_last() =~= s@.take(i as int));
        assert(is_digit(s@[i as int]));
        let d = (s[i] as u32 - 48) as u64;
        let nv = v * 10 + d;
        if nv > 0xFFFF_FFFF {
            proof {
                lemma_digits_num_prefix_mono(s@, i as int + 1);
            }
            return None;
        }
        v = nv;
        i = i + 1;
    }
    assert(s@.take(s.len() as int) =~= s@);
    Some(v as u32)
}

/// A longer prefix of digits is worth at least as much.
pub proof fn lemma_digits_num_prefix_mono(s: Seq<char>, k: int)
    requires
        only_digits(s),
        0 <= k <= s.len(),
    ensures
        digits_num(s) >= digits_num(s.take(k)),
        digits_num(s.take(k)) >= 0,
    decreases s.len() - k,
{
    lemma_digits_num_nonneg(s.take(k));
    if k < s.len() {
        lemma_digits_num_prefix_mono(s, k + 1);
        assert(s.take(k + 1).drop_last() =~= s.take(k));
        assert(is_digit(s[k]));
    } else {
        assert(s.take(k) =~= s);
    }
}

pub proof fn lemma_digits_num_nonneg(s: Seq<char>)
    requires
        only_digits(s),
    ensures
        digits_num(s) >= 0,
    decreases s.len(),
{
    if s.len() > 0 {
        assert(only_digits(s.drop_last())) by {
            assert forall|i: int| 0 <= i < s.drop_last().len() implies is_digit(#[trigger] s.drop_last()[i]) by {
                assert(s.drop_last()[i] == s[i]);
            }
        }
        lemma_digits_num_nonneg(s.drop_last());
        assert(is_digit(s[s.len() - 1]));
    }
}

pub open spec fn pow10(n: nat) -> nat
    decreases n,
{
    if n == 0 {
        1
    } else {
        10 * pow10((n - 1) as nat)
    }
}

/// `n` digits are worth less than `10^n`.
pub proof fn lemma_digits_num_bound(s: Seq<char>)
    requires
        only_digits(s),
    ensures
        0 <= digits_num(s) < pow10(s.len()),
    decreases s.len(),
{
    if s.len() > 0 {
        assert(only_digits(s.drop_last())) by {
            assert forall|i: int| 0 <= i < s.drop_last().len() implies is_digit(#[trigger] s.drop_last()[i]) by {
                assert(s.drop_last()[i] == s[i]);
            }
        }
        lemma_digits_num_bound(s.drop_last());
        assert(is_digit(s[s.len() - 1]));
        let d = digits_num(s.drop_last());
        let p = pow10((s.len() - 1) as nat);
        let x = s.last() as int - 48;
        assert(0 <= x <= 9);
        assert(d * 10 + x < 10 * p) by (nonlinear_arith)
            requires
                0 <= d < p,
                0 <= x <= 9,
        ;
    }
}

/// Reads a string of decimal digits whose value is at most `max`
/// (`str::parse` on digits only, for a type whose largest value is `max`).
pub fn parse_digits_upto(s: &[char], max: u64) -> (r: Option<u64>)
    requires
        only_digits(s@),
    ensures
        match r {
            Some(v) => v == digits_num(s@) && v <= max,
            None => digits_num(s@) > max,
        },
{
    let mut v: u64 = 0;
    let mut i: usize = 0;
    while i < s.len()
        invariant
            i <= s.len(),
            only_digits(s@),
            v == digits_num(s@.take(i as int)),
            v <= max,
        decreases s.len() - i,
    {
        assert(s@.take(i + 1).drop_last() =~= s@.take(i as int));
        assert(is_digit(s@[i as int]));
        let d = (s[i] as u32 - 48) as u64;
        if d > max {
            proof {
                lemma_digits_num_prefix_mono(s@, i as int + 1);
            }
            return None;
        }
        if v > (max - d) / 10 {
            proof {
                assert(v * 10 + d > max) by (nonlinear_arith)
                    requires
                        v > (max - d) / 10,
                        d <= max,
                ;
                lemma_digits_num_prefix_mono(s@, i as int + 1);
            }
            return None;
        }
        assert(v * 10 + d <= max) by (nonlinear_arith)
            requires
                v <= (max - d) / 10,
                d <= max,
        ;
        v = v * 10 + d;
        i = i + 1;
    }
    assert(s@.take(s.len() as int) =~= s@);
    Some(v)
}

} // verus!
