//! Parser and renderer for the Markdown files stored in the Gist.
//!
//! A document is a `# Title`, optional `Key: value` fields, and `## Section`s:
//!
//! ```text
//! # Worker
//!
//! ID: 6f1c2b7e-...
//! Name: parser
//!
//! ## Task
//!
//! Implement the parser.
//! ```
//!
//! Headings inside fenced code blocks are not treated as headings.

use vstd::prelude::*;

use crate::error::Error;
use crate::text::{
    char_is_alnum, char_is_alpha, copy_vec, crlf_to_lf, extend_vec, is_alnum, is_alpha, is_blank,
    is_ws, join, join_vec, lemma_blank_trim, lemma_split_nonempty, lines, lines_vec, push_str,
    slice_vec, split, split_once, split_vec, starts_with, string_of, strip_prefix, trim, trim_end,
    trim_end_index, trim_end_vec, trim_start, trim_start_vec, trim_vec, vec_crlf_to_lf,
    vec_is_blank, vec_split_once, vec_starts_with, vv, chars_of, str_eq, strip_cr,
    vec_eq, sv,
};

verus! {

/// `(key, value)` or `(heading, body)` as character sequences.
pub type TextPair = (Seq<char>, Seq<char>);

/// Abstract document: title, fields, preamble, sections.
pub type DocView = (Seq<char>, Seq<TextPair>, Seq<char>, Seq<TextPair>);

#[derive(Debug, Clone, PartialEq, Eq, Default)]
pub struct MdDoc {
    /// Text after `# `.
    pub title: String,
    /// `Key: value` lines between the title and the first `## `.
    pub fields: Vec<(String, String)>,
    /// Other non-empty lines in the same area, joined with `\n`.
    pub preamble: String,
    pub sections: Vec<MdSection>,
}

#[derive(Debug, Clone, PartialEq, Eq, Default)]
pub struct MdSection {
    /// Text after `## `, trimmed.
    pub heading: String,
    /// Body without leading and trailing blank lines.
    pub body: String,
}

pub open spec fn pairs_view(v: Seq<(String, String)>) -> Seq<TextPair> {
    v.map_values(|p: (String, String)| (p.0@, p.1@))
}

pub open spec fn sections_view(v: Seq<MdSection>) -> Seq<TextPair> {
    v.map_values(|s: MdSection| (s.heading@, s.body@))
}

impl View for MdDoc {
    type V = DocView;

    open spec fn view(&self) -> DocView {
        (self.title@, pairs_view(self.fields@), self.preamble@, sections_view(self.sections@))
    }
}

// ---------------------------------------------------------------------------
// Line classification
// ---------------------------------------------------------------------------

/// `# Title` (or a bare `#`).
pub open spec fn parse_title(line: Seq<char>) -> Option<Seq<char>> {
    if trim_end(line) == seq!['#'] {
        Some(Seq::<char>::empty())
    } else {
        match strip_prefix(line, seq!['#', ' ']) {
            Some(t) => Some(trim(t)),
            None => None,
        }
    }
}

/// `## Heading` (or a bare `##`).
pub open spec fn parse_h2(line: Seq<char>) -> Option<Seq<char>> {
    if trim_end(line) == seq!['#', '#'] {
        Some(Seq::<char>::empty())
    } else {
        match strip_prefix(line, seq!['#', '#', ' ']) {
            Some(t) => Some(trim(t)),
            None => None,
        }
    }
}

pub open spec fn is_key_char(c: char) -> bool {
    is_alnum(c) || c == ' ' || c == '_' || c == '-'
}

/// A field key: an ASCII letter, then letters, digits, spaces, `_` or `-`.
pub open spec fn valid_key(k: Seq<char>) -> bool {
    &&& k.len() > 0
    &&& is_alpha(k[0])
    &&& forall|i: int| 0 <= i < k.len() ==> is_key_char(#[trigger] k[i])
}

/// Drops one leading space or tab.
pub open spec fn strip_one_blank(v: Seq<char>) -> Seq<char> {
    if v.len() > 0 && (v[0] == ' ' || v[0] == '\t') {
        v.drop_first()
    } else {
        v
    }
}

/// `Key: value` with the value's leading blank and trailing whitespace removed.
pub open spec fn parse_field(line: Seq<char>) -> Option<TextPair> {
    match split_once(line, ':') {
        Some(kv) => if valid_key(kv.0) {
            Some((kv.0, trim_end(strip_one_blank(kv.1))))
        } else {
            None
        },
        None => None,
    }
}

/// Fence state: 0 outside code, 1 inside a ``` block, 2 inside a ~~~ block.
pub open spec fn fence_marker(line: Seq<char>) -> u8 {
    let t = trim_start(line);
    if starts_with(t, seq!['`', '`', '`']) {
        1
    } else if starts_with(t, seq!['~', '~', '~']) {
        2
    } else {
        0
    }
}

/// Feeds one line: the new state and whether the line belongs to code
/// (fence lines included).
pub open spec fn fence_step(state: u8, line: Seq<char>) -> (u8, bool) {
    let m = fence_marker(line);
    if state == 0 && m != 0 {
        (m, true)
    } else if state != 0 && m == state {
        (0, true)
    } else {
        (state, state != 0)
    }
}

pub fn title_of(line: &[char]) -> (r: Option<Vec<char>>)
    ensures
        match r {
            Some(t) => parse_title(line@) == Some(t@),
            None => parse_title(line@) is None,
        },
{
    let k = trim_end_index(line);
    if k == 1 && line[0] == '#' {
        assert(trim_end(line@) =~= seq!['#']);
        return Some(Vec::new());
    }
    assert(trim_end(line@) != seq!['#']) by {
        if trim_end(line@) == seq!['#'] {
            let t = line@.subrange(0, k as int);
            assert(t.len() == 1);
            assert(t[0] == line@[0]);
            assert(seq!['#'][0] == '#');
        }
    }
    if line.len() >= 2 && line[0] == '#' && line[1] == ' ' {
        assert(starts_with(line@, seq!['#', ' '])) by {
            assert(line@.subrange(0, 2) =~= seq!['#', ' ']);
        }
        let rest = slice_vec(line, 2, line.len());
        Some(trim_vec(&rest))
    } else {
        assert(!starts_with(line@, seq!['#', ' '])) by {
            if line@.len() >= 2 {
                assert(line@.subrange(0, 2)[0] == line@[0]);
                assert(line@.subrange(0, 2)[1] == line@[1]);
            }
        }
        None
    }
}

pub fn h2_of(line: &[char]) -> (r: Option<Vec<char>>)
    ensures
        match r {
            Some(t) => parse_h2(line@) == Some(t@),
            None => parse_h2(line@) is None,
        },
{
    let k = trim_end_index(line);
    if k == 2 && line[0] == '#' && line[1] == '#' {
        assert(trim_end(line@) =~= seq!['#', '#']);
        return Some(Vec::new());
    }
    assert(trim_end(line@) != seq!['#', '#']) by {
        if trim_end(line@) == seq!['#', '#'] {
            let t = line@.subrange(0, k as int);
            assert(t.len() == 2);
            assert(t[0] == line@[0]);
            assert(t[1] == line@[1]);
            assert(seq!['#', '#'][0] == '#');
            assert(seq!['#', '#'][1] == '#');
        }
    }
    if line.len() >= 3 && line[0] == '#' && line[1] == '#' && line[2] == ' ' {
        assert(starts_with(line@, seq!['#', '#', ' '])) by {
            assert(line@.subrange(0, 3) =~= seq!['#', '#', ' ']);
        }
        let rest = slice_vec(line, 3, line.len());
        Some(trim_vec(&rest))
    } else {
        assert(!starts_with(line@, seq!['#', '#', ' '])) by {
            if line@.len() >= 3 {
                let t = line@.subrange(0, 3);
                assert(t[0] == line@[0]);
                assert(t[1] == line@[1]);
                assert(t[2] == line@[2]);
            }
        }
        None
    }
}

pub fn key_is_valid(k: &[char]) -> (b: bool)
    ensures
        b == valid_key(k@),
{
    if k.len() == 0 || !char_is_alpha(k[0]) {
        return false;
    }
    let mut i: usize = 0;
    while i < k.len()
        invariant
            i <= k.len(),
            forall|j: int| 0 <= j < i ==> is_key_char(#[trigger] k@[j]),
        decreases k.len() - i,
    {
        let c = k[i];
        if !(char_is_alnum(c) || c == ' ' || c == '_' || c == '-') {
            return false;
        }
        i = i + 1;
    }
    true
}

pub fn field_of(line: &[char]) -> (r: Option<(Vec<char>, Vec<char>)>)
    ensures
        match r {
            Some(kv) => parse_field(line@) == Some((kv.0@, kv.1@)),
            None => parse_field(line@) is None,
        },
{
    match vec_split_once(line, ':') {
        None => None,
        Some((key, value)) => {
            if !key_is_valid(&key) {
                return None;
            }
            let v = if value.len() > 0 && (value[0] == ' ' || value[0] == '\t') {
                slice_vec(&value, 1, value.len())
            } else {
                copy_vec(&value)
            };
            proof {
                if value@.len() > 0 && (value@[0] == ' ' || value@[0] == '\t') {
                    assert(value@.drop_first() =~= value@.subrange(1, value@.len() as int));
                }
            }
            Some((key, trim_end_vec(&v)))
        },
    }
}

pub fn marker_of(line: &[char]) -> (m: u8)
    ensures
        m == fence_marker(line@),
{
    let t = trim_start_vec(line);
    let ticks = vec!['`', '`', '`'];
    let tildes = vec!['~', '~', '~'];
    assert(ticks@ =~= seq!['`', '`', '`']);
    assert(tildes@ =~= seq!['~', '~', '~']);
    if vec_starts_with(&t, &ticks) {
        1
    } else if vec_starts_with(&t, &tildes) {
        2
    } else {
        0
    }
}

pub fn fence_update(state: u8, line: &[char]) -> (r: (u8, bool))
    ensures
        r == fence_step(state, line@),
{
    let m = marker_of(line);
    if state == 0 && m != 0 {
        (m, true)
    } else if state != 0 && m == state {
        (0, true)
    } else {
        (state, state != 0)
    }
}

// ---------------------------------------------------------------------------
// Blank-line trimming
// ---------------------------------------------------------------------------

pub open spec fn drop_leading_blank(ls: Seq<Seq<char>>) -> Seq<Seq<char>>
    decreases ls.len(),
{
    if ls.len() > 0 && is_blank(ls[0]) {
        drop_leading_blank(ls.drop_first())
    } else {
        ls
    }
}

pub open spec fn drop_trailing_blank(ls: Seq<Seq<char>>) -> Seq<Seq<char>>
    decreases ls.len(),
{
    if ls.len() > 0 && is_blank(ls.last()) {
        drop_trailing_blank(ls.drop_last())
    } else {
        ls
    }
}

/// Lines without leading and trailing blank lines, joined with `\n`.
pub open spec fn trim_blank_lines(ls: Seq<Seq<char>>) -> Seq<char> {
    join(drop_trailing_blank(drop_leading_blank(ls)), seq!['\n'])
}

pub proof fn lemma_drop_leading_from(ls: Seq<Seq<char>>, i: int)
    requires
        0 <= i <= ls.len(),
        forall|j: int| 0 <= j < i ==> is_blank(#[trigger] ls[j]),
        i < ls.len() ==> !is_blank(ls[i]),
    ensures
        drop_leading_blank(ls) == ls.subrange(i, ls.len() as int),
    decreases i,
{
    if i > 0 {
        lemma_drop_leading_from(ls.drop_first(), i - 1);
        assert(ls.drop_first().subrange(i - 1, ls.drop_first().len() as int) =~= ls.subrange(
            i,
            ls.len() as int,
        ));
    } else {
        assert(ls.subrange(0, ls.len() as int) =~= ls);
    }
}

pub proof fn lemma_drop_trailing_to(ls: Seq<Seq<char>>, k: int)
    requires
        0 <= k <= ls.len(),
        forall|j: int| k <= j < ls.len() ==> is_blank(#[trigger] ls[j]),
        k > 0 ==> !is_blank(ls[k - 1]),
    ensures
        drop_trailing_blank(ls) == ls.subrange(0, k),
    decreases ls.len() - k,
{
    if k < ls.len() {
        lemma_drop_trailing_to(ls.drop_last(), k);
        assert(ls.drop_last().subrange(0, k) =~= ls.subrange(0, k));
    } else {
        assert(ls.subrange(0, k) =~= ls);
    }
}

/// Copies `v[from..to]`.
pub fn slice_lines(v: &Vec<Vec<char>>, from: usize, to: usize) -> (r: Vec<Vec<char>>)
    requires
        from <= to <= v.len(),
    ensures
        vv(r@) == vv(v@).subrange(from as int, to as int),
{
    let mut r: Vec<Vec<char>> = Vec::new();
    let mut i: usize = from;
    while i < to
        invariant
            from <= i <= to <= v.len(),
            vv(r@) == vv(v@).subrange(from as int, i as int),
        decreases to - i,
    {
        let ghost old_r = r@;
        let line = copy_vec(&v[i]);
        r.push(line);
        assert(vv(r@) =~= vv(old_r).push(v@[i as int]@));
        assert(vv(v@).subrange(from as int, i + 1) =~= vv(v@).subrange(from as int, i as int).push(
            v@[i as int]@,
        ));
        i = i + 1;
    }
    r
}

pub fn trim_blank_lines_vec(v: &Vec<Vec<char>>) -> (out: Vec<char>)
    ensures
        out@ == trim_blank_lines(vv(v@)),
{
    let ghost ls = vv(v@);
    let mut i: usize = 0;
    while i < v.len() && vec_is_blank(&v[i])
        invariant
            i <= v.len(),
            ls == vv(v@),
            forall|j: int| 0 <= j < i ==> is_blank(#[trigger] ls[j]),
        decreases v.len() - i,
    {
        i = i + 1;
    }
    let mut k: usize = v.len();
    while k > i && vec_is_blank(&v[k - 1])
        invariant
            i <= k <= v.len(),
            ls == vv(v@),
            forall|j: int| k <= j < v.len() ==> is_blank(#[trigger] ls[j]),
        decreases k,
    {
        k = k - 1;
    }
    proof {
        lemma_drop_leading_from(ls, i as int);
        let mid = ls.subrange(i as int, ls.len() as int);
        assert forall|j: int| k - i <= j < mid.len() implies is_blank(#[trigger] mid[j]) by {
            assert(mid[j] == ls[j + i]);
        }
        if k > i {
            assert(mid[k - i - 1] == ls[k - 1]);
        }
        lemma_drop_trailing_to(mid, k - i);
        assert(mid.subrange(0, k - i) =~= ls.subrange(i as int, k as int));
    }
    let kept = slice_lines(v, i, k);
    let sep = vec!['\n'];
    assert(sep@ =~= seq!['\n']);
    join_vec(&kept, &sep)
}

// ---------------------------------------------------------------------------
// Parsing
// ---------------------------------------------------------------------------

/// Fields, preamble lines, finished sections, open section and fence state.
pub type ParseState = (Seq<TextPair>, Seq<Seq<char>>, Seq<TextPair>, Option<(Seq<char>, Seq<Seq<char>>)>, u8);

pub open spec fn close_section(
    sections: Seq<TextPair>,
    current: Option<(Seq<char>, Seq<Seq<char>>)>,
) -> Seq<TextPair> {
    match current {
        Some(c) => sections.push((c.0, trim_blank_lines(c.1))),
        None => sections,
    }
}

/// One line of the part after the title.
pub open spec fn parse_step(st: ParseState, line: Seq<char>) -> ParseState {
    let heading = if st.4 == 0 {
        parse_h2(line)
    } else {
        None
    };
    match heading {
        Some(h) => (st.0, st.1, close_section(st.2, st.3), Some((h, Seq::empty())), st.4),
        None => {
            let fs = fence_step(st.4, line);
            match st.3 {
                Some(c) => (st.0, st.1, st.2, Some((c.0, c.1.push(line))), fs.0),
                None => if !fs.1 && parse_field(line) is Some {
                    (st.0.push(parse_field(line).unwrap()), st.1, st.2, None, fs.0)
                } else if !is_blank(line) {
                    (st.0, st.1.push(line), st.2, None, fs.0)
                } else {
                    (st.0, st.1, st.2, None, fs.0)
                },
            }
        },
    }
}

/// The state after reading `ls` from the start.
pub open spec fn parse_lines(ls: Seq<Seq<char>>) -> ParseState
    decreases ls.len(),
{
    if ls.len() == 0 {
        (Seq::empty(), Seq::empty(), Seq::empty(), None, 0)
    } else {
        parse_step(parse_lines(ls.drop_last()), ls.last())
    }
}

/// Index of the first line that is not blank.
pub open spec fn first_nonblank(ls: Seq<Seq<char>>) -> Option<int>
    decreases ls.len(),
{
    if ls.len() == 0 {
        None
    } else if !is_blank(ls[0]) {
        Some(0)
    } else {
        match first_nonblank(ls.drop_first()) {
            Some(i) => Some(i + 1),
            None => None,
        }
    }
}

pub proof fn lemma_first_nonblank(ls: Seq<Seq<char>>, i: int)
    requires
        0 <= i <= ls.len(),
        forall|j: int| 0 <= j < i ==> is_blank(#[trigger] ls[j]),
        i < ls.len() ==> !is_blank(ls[i]),
    ensures
        first_nonblank(ls) == (if i < ls.len() {
            Some(i)
        } else {
            None::<int>
        }),
    decreases i,
{
    if i > 0 {
        lemma_first_nonblank(ls.drop_first(), i - 1);
    }
}

/// The document in `input`, or `None` when it has no `# ` title line.
pub open spec fn parse_doc(input: Seq<char>) -> Option<DocView> {
    let ls = split(crlf_to_lf(input), '\n');
    match first_nonblank(ls) {
        None => None,
        Some(k) => match parse_title(ls[k]) {
            None => None,
            Some(t) => {
                let st = parse_lines(ls.subrange(k + 1, ls.len() as int));
                Some((t, st.0, join(st.1, seq!['\n']), close_section(st.2, st.3)))
            },
        },
    }
}

pub open spec fn opt_current(has: bool, heading: Seq<char>, body: Seq<Seq<char>>) -> Option<(Seq<char>, Seq<Seq<char>>)> {
    if has {
        Some((heading, body))
    } else {
        None
    }
}

fn make_section(heading: &[char], body: &[char]) -> (s: MdSection)
    ensures
        s.heading@ == heading@,
        s.body@ == body@,
{
    MdSection { heading: string_of(heading), body: string_of(body) }
}

impl MdDoc {
    pub fn parse(input: &str) -> (r: Result<MdDoc, Error>)
        ensures
            match r {
                Ok(doc) => parse_doc(input@) == Some(doc@),
                Err(e) => parse_doc(input@) is None && (e matches Error::General(m) && m@
                    == "invalid markdown: missing '# ' title"@),
            },
    {
        let raw = chars_of(input);
        let text = vec_crlf_to_lf(&raw);
        let lines = split_vec(&text, '\n');
        let ghost ls = split(crlf_to_lf(input@), '\n');
        assert(vv(lines@) =~= ls);
        let mut k: usize = 0;
        while k < lines.len() && vec_is_blank(&lines[k])
            invariant
                k <= lines.len(),
                vv(lines@) == ls,
                forall|j: int| 0 <= j < k ==> is_blank(#[trigger] ls[j]),
            decreases lines.len() - k,
        {
            k = k + 1;
        }
        proof {
            lemma_first_nonblank(ls, k as int);
        }
        if k == lines.len() {
            return Err(Error::General(String::from_str("invalid markdown: missing '# ' title")));
        }
        let title = match title_of(&lines[k]) {
            Some(t) => t,
            None => {
                return Err(Error::General(String::from_str("invalid markdown: missing '# ' title")));
            },
        };
        let mut fields: Vec<(String, String)> = Vec::new();
        let mut preamble: Vec<Vec<char>> = Vec::new();
        let mut sections: Vec<MdSection> = Vec::new();
        let mut has_cur = false;
        let mut cur_heading: Vec<char> = Vec::new();
        let mut cur_body: Vec<Vec<char>> = Vec::new();
        let mut fence: u8 = 0;
        let mut i: usize = k + 1;
        let start: usize = k + 1;
        assert(ls.subrange(start as int, start as int) =~= Seq::<Seq<char>>::empty());
        while i < lines.len()
            invariant
                start <= i <= lines.len(),
                vv(lines@) == ls,
                parse_lines(ls.subrange(start as int, i as int)) == (
                    pairs_view(fields@),
                    vv(preamble@),
                    sections_view(sections@),
                    opt_current(has_cur, cur_heading@, vv(cur_body@)),
                    fence,
                ),
            decreases lines.len() - i,
        {
            let line = &lines[i];
            assert(ls.len() == lines@.len());
            assert(ls[i as int] == lines@[i as int]@);
            assert(ls.subrange(start as int, i + 1).drop_last() =~= ls.subrange(
                start as int,
                i as int,
            ));
            assert(ls.subrange(start as int, i + 1).last() == line@);
            let heading = if fence == 0 {
                h2_of(line)
            } else {
                None
            };
            let ghost st = parse_lines(ls.subrange(start as int, i as int));
            let ghost old_fields = fields@;
            let ghost old_pre = preamble@;
            let ghost old_secs = sections@;
            let ghost old_body = cur_body@;
            match heading {
                Some(h) => {
                    if has_cur {
                        let body = trim_blank_lines_vec(&cur_body);
                        let sec = make_section(&cur_heading, &body);
                        sections.push(sec);
                        assert(sections_view(sections@) =~= sections_view(old_secs).push(
                            (cur_heading@, trim_blank_lines(vv(cur_body@))),
                        ));
                    }
                    has_cur = true;
                    cur_heading = h;
                    cur_body = Vec::new();
                    assert(vv(cur_body@) =~= Seq::<Seq<char>>::empty());
                },
                None => {
                    let (f2, in_code) = fence_update(fence, line);
                    fence = f2;
                    if has_cur {
                        let copy = copy_vec(line);
                        cur_body.push(copy);
                        assert(vv(cur_body@) =~= vv(old_body).push(line@));
                    } else {
                        let field = if in_code {
                            None
                        } else {
                            field_of(line)
                        };
                        match field {
                            Some((key, value)) => {
                                let pair = (string_of(&key), string_of(&value));
                                fields.push(pair);
                                assert(pairs_view(fields@) =~= pairs_view(old_fields).push(
                                    (key@, value@),
                                ));
                            },
                            None => {
                                if !vec_is_blank(line) {
                                    preamble.push(copy_vec(line));
                                    assert(vv(preamble@) =~= vv(old_pre).push(line@));
                                }
                            },
                        }
                    }
                },
            }
            i = i + 1;
        }
        proof {
            assert(ls.subrange(start as int, lines.len() as int) == ls.subrange(
                k + 1,
                ls.len() as int,
            ));
        }
        let ghost final_secs = sections@;
        if has_cur {
            let body = trim_blank_lines_vec(&cur_body);
            sections.push(make_section(&cur_heading, &body));
            assert(sections_view(sections@) =~= sections_view(final_secs).push(
                (cur_heading@, trim_blank_lines(vv(cur_body@))),
            ));
        }
        let sep = vec!['\n'];
        assert(sep@ =~= seq!['\n']);
        let pre = join_vec(&preamble, &sep);
        Ok(MdDoc { title: string_of(&title), fields, preamble: string_of(&pre), sections })
    }
}

// ---------------------------------------------------------------------------
// Rendering
// ---------------------------------------------------------------------------

/// `Key: value`, or `Key:` for an empty value.
pub open spec fn field_line(f: TextPair) -> Seq<char> {
    if f.1.len() == 0 {
        f.0.push(':')
    } else {
        f.0 + seq![':', ' '] + f.1
    }
}

/// One `Key: value` line per field.
pub open spec fn fields_text(fs: Seq<TextPair>) -> Seq<char> {
    join(fs.map_values(|f: TextPair| field_line(f)), seq!['\n'])
}

pub open spec fn title_line(t: Seq<char>) -> Seq<char> {
    if t.len() == 0 {
        seq!['#']
    } else {
        seq!['#', ' '] + t
    }
}

pub open spec fn section_text(sec: TextPair) -> Seq<char> {
    if sec.1.len() == 0 {
        seq!['#', '#', ' '] + sec.0
    } else {
        seq!['#', '#', ' '] + sec.0 + seq!['\n', '\n'] + sec.1
    }
}

/// Title, fields (when any), preamble (when not empty), then every section.
pub open spec fn doc_blocks(d: DocView) -> Seq<Seq<char>> {
    seq![title_line(d.0)] + (if d.1.len() > 0 {
        seq![fields_text(d.1)]
    } else {
        Seq::empty()
    }) + (if d.2.len() > 0 {
        seq![d.2]
    } else {
        Seq::empty()
    }) + d.3.map_values(|sec: TextPair| section_text(sec))
}

/// Blocks separated by a blank line, with a final newline.
pub open spec fn doc_text(d: DocView) -> Seq<char> {
    join(doc_blocks(d), seq!['\n', '\n']).push('\n')
}

fn field_line_vec(key: &String, value: &String) -> (out: Vec<char>)
    ensures
        out@ == field_line((key@, value@)),
{
    let mut out = chars_of(key.as_str());
    let v = chars_of(value.as_str());
    if v.len() == 0 {
        out.push(':');
    } else {
        out.push(':');
        out.push(' ');
        extend_vec(&mut out, &v);
        assert(out@ =~= key@ + seq![':', ' '] + value@);
    }
    out
}

fn fields_text_vec(fields: &[(String, String)]) -> (out: Vec<char>)
    ensures
        out@ == fields_text(pairs_view(fields@)),
{
    let mut lines: Vec<Vec<char>> = Vec::new();
    let mut i: usize = 0;
    while i < fields.len()
        invariant
            i <= fields.len(),
            vv(lines@) == pairs_view(fields@).take(i as int).map_values(
                |f: TextPair| field_line(f),
            ),
        decreases fields.len() - i,
    {
        let ghost old_lines = lines@;
        let line = field_line_vec(&fields[i].0, &fields[i].1);
        lines.push(line);
        assert(vv(lines@) =~= vv(old_lines).push(field_line(pairs_view(fields@)[i as int])));
        assert(pairs_view(fields@).take(i + 1).map_values(|f: TextPair| field_line(f))
            =~= pairs_view(fields@).take(i as int).map_values(|f: TextPair| field_line(f)).push(
            field_line(pairs_view(fields@)[i as int]),
        ));
        i = i + 1;
    }
    assert(pairs_view(fields@).take(fields.len() as int) =~= pairs_view(fields@));
    let sep = vec!['\n'];
    assert(sep@ =~= seq!['\n']);
    join_vec(&lines, &sep)
}

fn section_text_vec(sec: &MdSection) -> (out: Vec<char>)
    ensures
        out@ == section_text((sec.heading@, sec.body@)),
{
    let mut out: Vec<char> = vec!['#', '#', ' '];
    let h = chars_of(sec.heading.as_str());
    let b = chars_of(sec.body.as_str());
    extend_vec(&mut out, &h);
    if b.len() > 0 {
        out.push('\n');
        out.push('\n');
        extend_vec(&mut out, &b);
        assert(out@ =~= seq!['#', '#', ' '] + sec.heading@ + seq!['\n', '\n'] + sec.body@);
    } else {
        assert(out@ =~= seq!['#', '#', ' '] + sec.heading@);
    }
    out
}

/// `Key: value` per line; an empty value renders as `Key:`.
pub fn render_fields(fields: &[(String, String)]) -> (s: String)
    ensures
        s@ == fields_text(pairs_view(fields@)),
{
    let v = fields_text_vec(fields);
    string_of(&v)
}

impl MdDoc {
    pub fn render(&self) -> (s: String)
        ensures
            s@ == doc_text(self@),
    {
        let ghost d = self@;
        let mut blocks: Vec<Vec<char>> = Vec::new();
        let t = chars_of(self.title.as_str());
        let first = if t.len() == 0 {
            vec!['#']
        } else {
            let mut f: Vec<char> = vec!['#', ' '];
            extend_vec(&mut f, &t);
            f
        };
        assert(first@ =~= title_line(d.0));
        blocks.push(first);
        if self.fields.len() > 0 {
            blocks.push(fields_text_vec(self.fields.as_slice()));
        }
        let p = chars_of(self.preamble.as_str());
        if p.len() > 0 {
            blocks.push(p);
        }
        let ghost head = vv(blocks@);
        assert(head =~= seq![title_line(d.0)] + (if d.1.len() > 0 {
            seq![fields_text(d.1)]
        } else {
            Seq::empty()
        }) + (if d.2.len() > 0 {
            seq![d.2]
        } else {
            Seq::empty()
        }));
        let mut i: usize = 0;
        while i < self.sections.len()
            invariant
                i <= self.sections.len(),
                d == self@,
                vv(blocks@) == head + d.3.take(i as int).map_values(
                    |sec: TextPair| section_text(sec),
                ),
            decreases self.sections.len() - i,
        {
            let ghost old_blocks = blocks@;
            let b = section_text_vec(&self.sections[i]);
            blocks.push(b);
            assert(vv(blocks@) =~= vv(old_blocks).push(section_text(d.3[i as int])));
            assert(d.3.take(i + 1).map_values(|sec: TextPair| section_text(sec)) =~= d.3.take(
                i as int,
            ).map_values(|sec: TextPair| section_text(sec)).push(section_text(d.3[i as int])));
            i = i + 1;
        }
        assert(d.3.take(self.sections.len() as int) =~= d.3);
        assert(vv(blocks@) =~= doc_blocks(d));
        let sep = vec!['\n', '\n'];
        assert(sep@ =~= seq!['\n', '\n']);
        let mut out = join_vec(&blocks, &sep);
        out.push('\n');
        string_of(&out)
    }
}

// ---------------------------------------------------------------------------
// Lookup and update
// ---------------------------------------------------------------------------

/// Index of the first pair whose first part is `key`.
pub open spec fn key_index(fs: Seq<TextPair>, key: Seq<char>) -> Option<int>
    decreases fs.len(),
{
    if fs.len() == 0 {
        None
    } else if fs[0].0 == key {
        Some(0)
    } else {
        match key_index(fs.drop_first(), key) {
            Some(i) => Some(i + 1),
            None => None,
        }
    }
}

/// Second part of the first pair whose first part is `key`.
pub open spec fn lookup(fs: Seq<TextPair>, key: Seq<char>) -> Option<Seq<char>> {
    match key_index(fs, key) {
        Some(i) => Some(fs[i].1),
        None => None,
    }
}

/// Replaces the second part of the first pair with `key`, or appends `(key, value)`.
pub open spec fn upsert(fs: Seq<TextPair>, key: Seq<char>, value: Seq<char>) -> Seq<TextPair> {
    match key_index(fs, key) {
        Some(i) => fs.update(i, (key, value)),
        None => fs.push((key, value)),
    }
}

pub proof fn lemma_key_index(fs: Seq<TextPair>, key: Seq<char>, i: int)
    requires
        0 <= i <= fs.len(),
        forall|j: int| 0 <= j < i ==> (#[trigger] fs[j]).0 != key,
        i < fs.len() ==> fs[i].0 == key,
    ensures
        key_index(fs, key) == (if i < fs.len() {
            Some(i)
        } else {
            None::<int>
        }),
    decreases i,
{
    if i > 0 {
        assert(fs[0].0 != key);
        assert forall|j: int| 0 <= j < i - 1 implies (#[trigger] fs.drop_first()[j]).0 != key by {
            assert(fs.drop_first()[j] == fs[j + 1]);
        }
        lemma_key_index(fs.drop_first(), key, i - 1);
    }
}

fn field_position(fields: &Vec<(String, String)>, key: &[char]) -> (r: Option<usize>)
    ensures
        match r {
            Some(i) => key_index(pairs_view(fields@), key@) == Some(i as int) && i < fields@.len(),
            None => key_index(pairs_view(fields@), key@) is None,
        },
{
    let ghost fs = pairs_view(fields@);
    let mut i: usize = 0;
    while i < fields.len()
        invariant
            i <= fields.len(),
            fs == pairs_view(fields@),
            forall|j: int| 0 <= j < i ==> (#[trigger] fs[j]).0 != key@,
        decreases fields.len() - i,
    {
        if str_eq(fields[i].0.as_str(), key) {
            proof {
                lemma_key_index(fs, key@, i as int);
            }
            return Some(i);
        }
        i = i + 1;
    }
    proof {
        lemma_key_index(fs, key@, i as int);
    }
    None
}

fn section_position(sections: &Vec<MdSection>, heading: &[char]) -> (r: Option<usize>)
    ensures
        match r {
            Some(i) => key_index(sections_view(sections@), heading@) == Some(i as int) && i
                < sections@.len(),
            None => key_index(sections_view(sections@), heading@) is None,
        },
{
    let ghost fs = sections_view(sections@);
    let mut i: usize = 0;
    while i < sections.len()
        invariant
            i <= sections.len(),
            fs == sections_view(sections@),
            forall|j: int| 0 <= j < i ==> (#[trigger] fs[j]).0 != heading@,
        decreases sections.len() - i,
    {
        if str_eq(sections[i].heading.as_str(), heading) {
            proof {
                lemma_key_index(fs, heading@, i as int);
            }
            return Some(i);
        }
        i = i + 1;
    }
    proof {
        lemma_key_index(fs, heading@, i as int);
    }
    None
}

impl MdDoc {
    /// Value of the first field named `key`.
    pub fn field(&self, key: &str) -> (r: Option<&str>)
        ensures
            match r {
                Some(v) => lookup(self@.1, key@) == Some(v@),
                None => lookup(self@.1, key@) is None,
            },
    {
        let k = chars_of(key);
        match field_position(&self.fields, &k) {
            Some(i) => Some(self.fields[i].1.as_str()),
            None => None,
        }
    }

    /// Replaces the value of `key`, or appends the field.
    pub fn set_field(&mut self, key: &str, value: &str)
        ensures
            final(self)@ == (old(self)@.0, upsert(old(self)@.1, key@, value@), old(self)@.2, old(
                self,
            )@.3),
    {
        let k = chars_of(key);
        let pair = (string_of(&k), string_of(&chars_of(value)));
        let ghost old_fields = self.fields@;
        match field_position(&self.fields, &k) {
            Some(i) => {
                self.fields.set(i, pair);
                assert(pairs_view(self.fields@) =~= pairs_view(old_fields).update(
                    i as int,
                    (key@, value@),
                ));
            },
            None => {
                self.fields.push(pair);
                assert(pairs_view(self.fields@) =~= pairs_view(old_fields).push((key@, value@)));
            },
        }
    }

    /// The first section with the given heading.
    pub fn section(&self, heading: &str) -> (r: Option<&MdSection>)
        ensures
            match r {
                Some(sec) => key_index(self@.3, heading@) is Some && (sec.heading@, sec.body@)
                    == self@.3[key_index(self@.3, heading@).unwrap()],
                None => key_index(self@.3, heading@) is None,
            },
    {
        let h = chars_of(heading);
        match section_position(&self.sections, &h) {
            Some(i) => Some(&self.sections[i]),
            None => None,
        }
    }

    /// Body of the first section with the given heading.
    pub fn section_body(&self, heading: &str) -> (r: Option<&str>)
        ensures
            match r {
                Some(b) => lookup(self@.3, heading@) == Some(b@),
                None => lookup(self@.3, heading@) is None,
            },
    {
        match self.section(heading) {
            Some(sec) => Some(sec.body.as_str()),
            None => None,
        }
    }

    /// Replaces the body of `heading` in place, or appends the section. The
    /// body loses its leading and trailing blank lines.
    pub fn set_section(&mut self, heading: &str, body: &str)
        ensures
            final(self)@ == (old(self)@.0, old(self)@.1, old(self)@.2, upsert(
                old(self)@.3,
                heading@,
                trim_blank_lines(split(body@, '\n')),
            )),
    {
        let h = chars_of(heading);
        let b = chars_of(body);
        let parts = split_vec(&b, '\n');
        assert(vv(parts@) =~= split(body@, '\n'));
        let trimmed = trim_blank_lines_vec(&parts);
        let sec = make_section(&h, &trimmed);
        let ghost old_secs = self.sections@;
        match section_position(&self.sections, &h) {
            Some(i) => {
                self.sections.set(i, sec);
                assert(sections_view(self.sections@) =~= sections_view(old_secs).update(
                    i as int,
                    (heading@, trimmed@),
                ));
            },
            None => {
                self.sections.push(sec);
                assert(sections_view(self.sections@) =~= sections_view(old_secs).push(
                    (heading@, trimmed@),
                ));
            },
        }
    }
}

// ---------------------------------------------------------------------------
// Fields and lists inside section bodies
// ---------------------------------------------------------------------------

/// The `Key: value` lines among `ls`, in order.
pub open spec fn fields_of_lines(ls: Seq<Seq<char>>) -> Seq<TextPair>
    decreases ls.len(),
{
    if ls.len() == 0 {
        Seq::empty()
    } else {
        let r = fields_of_lines(ls.drop_last());
        match parse_field(ls.last()) {
            Some(f) => r.push(f),
            None => r,
        }
    }
}

/// Collects `Key: value` lines (e.g. `Branch:` / `Commit:` inside a section).
pub fn parse_fields(body: &str) -> (r: Vec<(String, String)>)
    ensures
        pairs_view(r@) == fields_of_lines(lines(body@)),
{
    let b = chars_of(body);
    let ls = lines_vec(&b);
    let ghost lsv = lines(body@);
    assert(vv(ls@) =~= lsv);
    let mut r: Vec<(String, String)> = Vec::new();
    let mut i: usize = 0;
    while i < ls.len()
        invariant
            i <= ls.len(),
            vv(ls@) == lsv,
            pairs_view(r@) == fields_of_lines(lsv.take(i as int)),
        decreases ls.len() - i,
    {
        assert(lsv.take(i + 1).drop_last() =~= lsv.take(i as int));
        assert(lsv.take(i + 1).last() == ls@[i as int]@);
        let ghost old_r = r@;
        match field_of(&ls[i]) {
            Some((k, v)) => {
                r.push((string_of(&k), string_of(&v)));
                assert(pairs_view(r@) =~= pairs_view(old_r).push((k@, v@)));
            },
            None => {},
        }
        i = i + 1;
    }
    assert(lsv.take(ls.len() as int) =~= lsv);
    r
}

/// The item of a `- ` or `* ` line, trimmed.
pub open spec fn bullet_item(line: Seq<char>) -> Option<Seq<char>> {
    let l = trim_start(line);
    match strip_prefix(l, seq!['-', ' ']) {
        Some(rest) => Some(trim(rest)),
        None => match strip_prefix(l, seq!['*', ' ']) {
            Some(rest) => Some(trim(rest)),
            None => None,
        },
    }
}

/// Non-empty bullet items of `ls`, in order.
pub open spec fn bullet_items(ls: Seq<Seq<char>>) -> Seq<Seq<char>>
    decreases ls.len(),
{
    if ls.len() == 0 {
        Seq::empty()
    } else {
        let r = bullet_items(ls.drop_last());
        match bullet_item(ls.last()) {
            Some(it) => if it.len() > 0 {
                r.push(it)
            } else {
                r
            },
            None => r,
        }
    }
}

pub open spec fn has_bullet(ls: Seq<Seq<char>>) -> bool {
    exists|i: int| 0 <= i < ls.len() && (#[trigger] bullet_item(ls[i])) is Some
}

/// Items of `- ` / `* ` lines. Without any bullet, a non-empty body is one item.
pub open spec fn list_of(body: Seq<char>) -> Seq<Seq<char>> {
    let ls = lines(body);
    if has_bullet(ls) {
        bullet_items(ls)
    } else if trim(body).len() == 0 {
        Seq::empty()
    } else {
        seq![trim(body)]
    }
}

fn bullet_of(line: &[char]) -> (r: Option<Vec<char>>)
    ensures
        match r {
            Some(it) => bullet_item(line@) == Some(it@),
            None => bullet_item(line@) is None,
        },
{
    let l = trim_start_vec(line);
    let dash = vec!['-', ' '];
    let star = vec!['*', ' '];
    assert(dash@ =~= seq!['-', ' ']);
    assert(star@ =~= seq!['*', ' ']);
    if vec_starts_with(&l, &dash) {
        let rest = slice_vec(&l, 2, l.len());
        Some(trim_vec(&rest))
    } else if vec_starts_with(&l, &star) {
        let rest = slice_vec(&l, 2, l.len());
        Some(trim_vec(&rest))
    } else {
        None
    }
}

/// Items of `- ` / `* ` lines. Without any bullet, a non-empty body is one item.
pub fn parse_list(body: &str) -> (r: Vec<String>)
    ensures
        sv(r@) == list_of(body@),
{
    let b = chars_of(body);
    let ls = lines_vec(&b);
    let ghost lsv = lines(body@);
    assert(vv(ls@) =~= lsv);
    let mut items: Vec<String> = Vec::new();
    let mut any = false;
    let mut i: usize = 0;
    while i < ls.len()
        invariant
            i <= ls.len(),
            vv(ls@) == lsv,
            sv(items@) == bullet_items(lsv.take(i as int)),
            any == exists|j: int| 0 <= j < i && (#[trigger] bullet_item(lsv[j])) is Some,
        decreases ls.len() - i,
    {
        assert(lsv.take(i + 1).drop_last() =~= lsv.take(i as int));
        assert(lsv.take(i + 1).last() == ls@[i as int]@);
        let ghost old_items = items@;
        let ghost old_any = any;
        match bullet_of(&ls[i]) {
            Some(it) => {
                any = true;
                if it.len() > 0 {
                    items.push(string_of(&it));
                    assert(sv(items@) =~= sv(old_items).push(it@));
                }
            },
            None => {},
        }
        assert(any == exists|j: int| 0 <= j < i + 1 && (#[trigger] bullet_item(lsv[j])) is Some)
            by {
            if bullet_item(lsv[i as int]) is Some {
                assert(0 <= i < i + 1);
            }
            if old_any {
                let j = choose|j: int| 0 <= j < i && (#[trigger] bullet_item(lsv[j])) is Some;
                assert(0 <= j < i + 1);
            }
        }
        i = i + 1;
    }
    assert(lsv.take(ls.len() as int) =~= lsv);
    if any {
        items
    } else {
        let t = trim_vec(&b);
        if t.len() == 0 {
            Vec::new()
        } else {
            let mut one: Vec<String> = Vec::new();
            one.push(string_of(&t));
            assert(sv(one@) =~= seq![t@]);
            one
        }
    }
}

/// `- item` per line.
pub open spec fn list_text(items: Seq<Seq<char>>) -> Seq<char> {
    join(items.map_values(|it: Seq<char>| seq!['-', ' '] + it), seq!['\n'])
}

/// `- a\n- b` (empty string for no items).
pub fn render_list(items: &[String]) -> (s: String)
    ensures
        s@ == list_text(sv(items@)),
{
    let ghost its = sv(items@);
    let mut lines: Vec<Vec<char>> = Vec::new();
    let mut i: usize = 0;
    while i < items.len()
        invariant
            i <= items.len(),
            its == sv(items@),
            vv(lines@) == its.take(i as int).map_values(|it: Seq<char>| seq!['-', ' '] + it),
        decreases items.len() - i,
    {
        let ghost old_lines = lines@;
        let mut line: Vec<char> = vec!['-', ' '];
        let c = chars_of(items[i].as_str());
        extend_vec(&mut line, &c);
        lines.push(line);
        assert(vv(lines@) =~= vv(old_lines).push(seq!['-', ' '] + its[i as int]));
        assert(its.take(i + 1).map_values(|it: Seq<char>| seq!['-', ' '] + it) =~= its.take(
            i as int,
        ).map_values(|it: Seq<char>| seq!['-', ' '] + it).push(seq!['-', ' '] + its[i as int]));
        i = i + 1;
    }
    assert(its.take(items.len() as int) =~= its);
    let sep = vec!['\n'];
    assert(sep@ =~= seq!['\n']);
    let out = join_vec(&lines, &sep);
    string_of(&out)
}

// ---------------------------------------------------------------------------
// Heading demotion
// ---------------------------------------------------------------------------

/// Number of leading `#` characters.
pub open spec fn leading_hashes(s: Seq<char>) -> nat
    decreases s.len(),
{
    if s.len() > 0 && s[0] == '#' {
        1 + leading_hashes(s.drop_first())
    } else {
        0
    }
}

pub proof fn lemma_leading_hashes(s: Seq<char>, i: int)
    requires
        0 <= i <= s.len(),
        forall|j: int| 0 <= j < i ==> s[j] == '#',
        i < s.len() ==> s[i] != '#',
    ensures
        leading_hashes(s) == i,
    decreases i,
{
    if i > 0 {
        lemma_leading_hashes(s.drop_first(), i - 1);
    }
}

pub open spec fn min_int(a: int, b: int) -> int {
    if a < b {
        a
    } else {
        b
    }
}

/// An ATX heading line made `levels` deeper (at most `######`).
pub open spec fn demote_line(line: Seq<char>, levels: nat) -> Seq<char> {
    let h = leading_hashes(line);
    let rest = line.subrange(h as int, line.len() as int);
    if 1 <= h <= 6 && (rest.len() == 0 || rest[0] == ' ') {
        Seq::new(min_int((h + levels) as int, 6) as nat, |_i: int| '#') + rest
    } else {
        line
    }
}

/// Lines with headings outside code demoted, and the final fence state.
pub open spec fn demote_lines(ls: Seq<Seq<char>>, levels: nat) -> (Seq<Seq<char>>, u8)
    decreases ls.len(),
{
    if ls.len() == 0 {
        (Seq::empty(), 0)
    } else {
        let prev = demote_lines(ls.drop_last(), levels);
        let line = ls.last();
        let f = fence_step(prev.1, line).0;
        let out = if prev.1 != 0 || f != 0 {
            line
        } else {
            demote_line(line, levels)
        };
        (prev.0.push(out), f)
    }
}

pub open spec fn demoted(markdown: Seq<char>, levels: nat) -> Seq<char> {
    join(demote_lines(split(markdown, '\n'), levels).0, seq!['\n'])
}

fn demote_line_vec(line: &[char], levels: usize) -> (out: Vec<char>)
    ensures
        out@ == demote_line(line@, levels as nat),
{
    let mut h: usize = 0;
    while h < line.len() && line[h] == '#'
        invariant
            h <= line.len(),
            forall|j: int| 0 <= j < h ==> line@[j] == '#',
        decreases line.len() - h,
    {
        h = h + 1;
    }
    proof {
        lemma_leading_hashes(line@, h as int);
    }
    if 1 <= h && h <= 6 && (h == line.len() || line[h] == ' ') {
        let n: usize = if levels >= 6 - h {
            6
        } else {
            h + levels
        };
        let mut out: Vec<char> = Vec::new();
        let mut j: usize = 0;
        while j < n
            invariant
                j <= n,
                out@ == Seq::new(j as nat, |_i: int| '#'),
            decreases n - j,
        {
            out.push('#');
            assert(out@ =~= Seq::new((j + 1) as nat, |_i: int| '#'));
            j = j + 1;
        }
        let rest = slice_vec(line, h, line.len());
        extend_vec(&mut out, &rest);
        proof {
            let hh = leading_hashes(line@);
            assert(min_int((hh + levels) as int, 6) == n as int);
            let r = line@.subrange(h as int, line@.len() as int);
            if h < line.len() {
                assert(r[0] == line@[h as int]);
            }
        }
        out
    } else {
        proof {
            let r = line@.subrange(h as int, line@.len() as int);
            if h < line.len() {
                assert(r[0] == line@[h as int]);
            }
        }
        copy_vec(line)
    }
}

/// Makes every ATX heading outside fenced code `levels` deeper (at most `######`).
pub fn demote_headings(markdown: &str, levels: usize) -> (s: String)
    ensures
        s@ == demoted(markdown@, levels as nat),
{
    let m = chars_of(markdown);
    let ls = split_vec(&m, '\n');
    let ghost lsv = split(markdown@, '\n');
    assert(vv(ls@) =~= lsv);
    let mut out: Vec<Vec<char>> = Vec::new();
    let mut fence: u8 = 0;
    let mut i: usize = 0;
    while i < ls.len()
        invariant
            i <= ls.len(),
            vv(ls@) == lsv,
            demote_lines(lsv.take(i as int), levels as nat) == (vv(out@), fence),
        decreases ls.len() - i,
    {
        assert(lsv.take(i + 1).drop_last() =~= lsv.take(i as int));
        assert(lsv.take(i + 1).last() == ls@[i as int]@);
        let ghost old_out = out@;
        let line = &ls[i];
        let was_open = fence != 0;
        let (f2, _) = fence_update(fence, line);
        fence = f2;
        let converted = if was_open || fence != 0 {
            copy_vec(line)
        } else {
            demote_line_vec(line, levels)
        };
        out.push(converted);
        assert(vv(out@) =~= vv(old_out).push(converted@));
        i = i + 1;
    }
    assert(lsv.take(ls.len() as int) =~= lsv);
    let sep = vec!['\n'];
    assert(sep@ =~= seq!['\n']);
    let joined = join_vec(&out, &sep);
    string_of(&joined)
}


/// A copy of a list of sections.
pub fn copy_sections(v: &Vec<MdSection>) -> (r: Vec<MdSection>)
    ensures
        sections_view(r@) == sections_view(v@),
{
    let mut r: Vec<MdSection> = Vec::new();
    let mut i: usize = 0;
    while i < v.len()
        invariant
            i <= v.len(),
            sections_view(r@) == sections_view(v@).take(i as int),
        decreases v.len() - i,
    {
        let sec = MdSection { heading: v[i].heading.clone(), body: v[i].body.clone() };
        assert(sec.heading@ == v@[i as int].heading@ && sec.body@ == v@[i as int].body@);
        let ghost before = r@;
        r.push(sec);
        assert(r@ == before.push(sec));
        assert(sections_view(r@) =~= sections_view(before).push((sec.heading@, sec.body@)));
        assert(sections_view(r@) =~= sections_view(v@).take(i + 1));
        i = i + 1;
    }
    assert(sections_view(v@).take(v.len() as int) =~= sections_view(v@));
    r
}

/// A copy of a list of strings.
pub fn copy_strings(v: &Vec<String>) -> (r: Vec<String>)
    ensures
        r@ == v@,
{
    let mut r: Vec<String> = Vec::new();
    let mut i: usize = 0;
    while i < v.len()
        invariant
            i <= v.len(),
            r@ == v@.take(i as int),
        decreases v.len() - i,
    {
        r.push(v[i].clone());
        assert(r@ =~= v@.take(i + 1));
        i = i + 1;
    }
    assert(v@.take(v.len() as int) =~= v@);
    r
}

} // verus!
