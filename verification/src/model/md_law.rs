//! Reading a rendered document gives the document back.
//!
//! A document round-trips when each of its parts can be told apart from
//! the others in the rendered text: single-line title, keys, values and
//! headings without surrounding whitespace, a preamble and section bodies
//! without blank edge lines, and no line in them that would read as a
//! heading (or, in the preamble, as a field) outside code fences.

use vstd::prelude::*;

use super::md::{
    close_section, doc_blocks, doc_text, fence_step, field_line, fields_text, parse_doc,
    parse_field, parse_h2, parse_lines, parse_step, parse_title, section_text, title_line,
    trim_blank_lines, drop_leading_blank, drop_trailing_blank, valid_key, is_key_char, DocView,
    ParseState, TextPair, first_nonblank, strip_one_blank,
};
use crate::text::{
    crlf_to_lf, find_char, is_blank, is_ws, join, split, split_once, strip_prefix, trim, trim_end,
    trim_start, lemma_find_char_unique, lemma_split_nonempty, starts_with,
};

verus! {

// ---------------------------------------------------------------------------
// Splitting joined text
// ---------------------------------------------------------------------------

pub open spec fn no_char(s: Seq<char>, c: char) -> bool {
    forall|i: int| 0 <= i < s.len() ==> s[i] != c
}

/// Splitting at a separator between two texts splits each of them.
pub proof fn lemma_split_concat(a: Seq<char>, b: Seq<char>, c: char)
    ensures
        split(a + seq![c] + b, c) == split(a, c) + split(b, c),
    decreases b.len(),
{
    let s = a + seq![c] + b;
    if b.len() == 0 {
        assert(s =~= a.push(c));
        assert(s.drop_last() =~= a);
        assert(split(a, c) + split(b, c) =~= split(a, c).push(Seq::<char>::empty()));
    } else {
        let b1 = b.drop_last();
        assert(s.drop_last() =~= a + seq![c] + b1);
        lemma_split_concat(a, b1, c);
        lemma_split_nonempty(b1, c);
        lemma_split_nonempty(a, c);
        if b.last() == c {
            assert(split(a, c) + split(b, c) =~= (split(a, c) + split(b1, c)).push(Seq::<char>::empty()));
        } else {
            let r = split(a, c) + split(b1, c);
            let rb = split(b1, c);
            assert(split(b, c) == rb.update(rb.len() - 1, rb.last().push(b.last())));
            assert(r.update(r.len() - 1, r.last().push(s.last())) =~= split(a, c) + rb.update(
                rb.len() - 1,
                rb.last().push(b.last()),
            ));
        }
    }
}

/// A text without the separator is one piece.
pub proof fn lemma_split_single(a: Seq<char>, c: char)
    requires
        no_char(a, c),
    ensures
        split(a, c) == seq![a],
    decreases a.len(),
{
    if a.len() > 0 {
        lemma_split_single(a.drop_last(), c);
        assert(split(a.drop_last(), c) == seq![a.drop_last()]);
        assert(a.drop_last().push(a.last()) =~= a);
        assert(seq![a.drop_last()].update(0, a.drop_last().push(a.last())) =~= seq![a]);
    } else {
        assert(a =~= Seq::<char>::empty());
    }
}

/// Splitting undoes joining pieces that hold no separator.
pub proof fn lemma_split_join(xs: Seq<Seq<char>>, c: char)
    requires
        xs.len() > 0,
        forall|i: int| 0 <= i < xs.len() ==> no_char(#[trigger] xs[i], c),
    ensures
        split(join(xs, seq![c]), c) == xs,
    decreases xs.len(),
{
    if xs.len() == 1 {
        lemma_split_single(xs[0], c);
        assert(xs =~= seq![xs[0]]);
    } else {
        let w = xs.drop_last();
        assert forall|i: int| 0 <= i < w.len() implies no_char(#[trigger] w[i], c) by {
            assert(w[i] == xs[i]);
        }
        lemma_split_join(w, c);
        lemma_split_concat(join(w, seq![c]), xs.last(), c);
        lemma_split_single(xs.last(), c);
        assert(w + seq![xs.last()] =~= xs);
    }
}

/// Joining undoes splitting.
pub proof fn lemma_join_split(s: Seq<char>, c: char)
    ensures
        join(split(s, c), seq![c]) == s,
    decreases s.len(),
{
    if s.len() > 0 {
        let s1 = s.drop_last();
        lemma_join_split(s1, c);
        lemma_split_nonempty(s1, c);
        let r = split(s1, c);
        if s.last() == c {
            let r2 = r.push(Seq::<char>::empty());
            assert(r2.drop_last() =~= r);
            assert(join(r2, seq![c]) =~= s1 + seq![c]);
            assert(s1 + seq![c] =~= s);
        } else {
            lemma_join_update_last(r, seq![c], s.last());
            assert(s1.push(s.last()) =~= s);
        }
    }
}

/// Appending a character to the last piece appends it to the joined text.
pub proof fn lemma_join_update_last(r: Seq<Seq<char>>, sep: Seq<char>, x: char)
    requires
        r.len() > 0,
    ensures
        join(r.update(r.len() - 1, r.last().push(x)), sep) == join(r, sep).push(x),
{
    let u = r.update(r.len() - 1, r.last().push(x));
    if r.len() == 1 {
        assert(u[0] == r[0].push(x));
    } else {
        assert(u.drop_last() =~= r.drop_last());
        assert(u.last() == r.last().push(x));
        assert(join(r.drop_last(), sep) + sep + r.last().push(x) =~= (join(r.drop_last(), sep) + sep
            + r.last()).push(x));
    }
}

/// Text without `\r` is left as it is by the line-ending normalization.
pub proof fn lemma_crlf_none(s: Seq<char>)
    requires
        no_char(s, '\r'),
    ensures
        crlf_to_lf(s) == s,
    decreases s.len(),
{
    if s.len() > 0 {
        assert(no_char(s.drop_first(), '\r')) by {
            assert forall|i: int| 0 <= i < s.drop_first().len() implies s.drop_first()[i] != '\r' by {
                assert(s.drop_first()[i] == s[i + 1]);
            }
        }
        lemma_crlf_none(s.drop_first());
        assert(seq![s[0]] + s.drop_first() =~= s);
    }
}


/// Joined pieces hold a character only when a piece or the separator does.
pub proof fn lemma_no_char_join(xs: Seq<Seq<char>>, sep: Seq<char>, c: char)
    requires
        no_char(sep, c),
        forall|i: int| 0 <= i < xs.len() ==> no_char(#[trigger] xs[i], c),
    ensures
        no_char(join(xs, sep), c),
    decreases xs.len(),
{
    if xs.len() > 1 {
        let w = xs.drop_last();
        assert forall|i: int| 0 <= i < w.len() implies no_char(#[trigger] w[i], c) by {
            assert(w[i] == xs[i]);
        }
        lemma_no_char_join(w, sep, c);
        let j = join(w, sep) + sep + xs.last();
        assert forall|i: int| 0 <= i < j.len() implies j[i] != c by {
            let a = join(w, sep);
            if i < a.len() {
                assert(j[i] == a[i]);
            } else if i < a.len() + sep.len() {
                assert(j[i] == sep[i - a.len()]);
            } else {
                assert(j[i] == xs.last()[i - a.len() - sep.len()]);
            }
        }
    } else if xs.len() == 1 {
        assert(no_char(xs[0], c));
    }
}

pub proof fn lemma_no_char_concat(a: Seq<char>, b: Seq<char>, c: char)
    requires
        no_char(a, c),
        no_char(b, c),
    ensures
        no_char(a + b, c),
{
    assert forall|i: int| 0 <= i < (a + b).len() implies (a + b)[i] != c by {
        if i < a.len() {
            assert((a + b)[i] == a[i]);
        } else {
            assert((a + b)[i] == b[i - a.len()]);
        }
    }
}

// ---------------------------------------------------------------------------
// Single lines
// ---------------------------------------------------------------------------

/// No whitespace at either end.
pub open spec fn tight(s: Seq<char>) -> bool {
    s.len() == 0 || (!is_ws(s[0]) && !is_ws(s.last()))
}

pub open spec fn one_line(s: Seq<char>) -> bool {
    no_char(s, '\n') && no_char(s, '\r')
}

pub proof fn lemma_tight_trim(s: Seq<char>)
    requires
        tight(s),
    ensures
        trim_start(s) == s,
        trim_end(s) == s,
        trim(s) == s,
{
}

pub proof fn lemma_title_line(t: Seq<char>)
    requires
        tight(t),
    ensures
        parse_title(title_line(t)) == Some(t),
        !is_blank(title_line(t)),
{
    let line = title_line(t);
    assert(line[0] == '#');
    assert(!is_ws('#'));
    if t.len() == 0 {
        assert(line =~= seq!['#']);
        assert(trim_end(line) == line);
    } else {
        assert(line.last() == t.last());
        assert(trim_end(line) == line);
        assert(line != seq!['#']) by {
            assert(line.len() != 1);
        }
        assert(line.subrange(0, 2) =~= seq!['#', ' ']);
        assert(line.subrange(2, line.len() as int) =~= t);
        lemma_tight_trim(t);
    }
}

pub open spec fn h2_line(h: Seq<char>) -> Seq<char> {
    seq!['#', '#', ' '] + h
}

pub proof fn lemma_h2_line(h: Seq<char>)
    requires
        tight(h),
    ensures
        parse_h2(h2_line(h)) == Some(h),
        !is_blank(h2_line(h)),
{
    let line = h2_line(h);
    assert(line[0] == '#');
    assert(!is_ws('#'));
    if h.len() == 0 {
        assert(line =~= seq!['#', '#', ' ']);
        assert(line.drop_last() =~= seq!['#', '#']);
        assert(is_ws(' '));
        assert(trim_end(seq!['#', '#']) == seq!['#', '#']);
        assert(trim_end(line) == seq!['#', '#']);
    } else {
        assert(line.last() == h.last());
        assert(trim_end(line) == line);
        assert(line != seq!['#', '#']) by {
            assert(line.len() != 2);
        }
        assert(line.subrange(0, 3) =~= seq!['#', '#', ' ']);
        assert(line.subrange(3, line.len() as int) =~= h);
        lemma_tight_trim(h);
    }
}

/// A field that reads back as itself.
pub open spec fn field_ok(f: TextPair) -> bool {
    &&& valid_key(f.0)
    &&& one_line(f.1)
    &&& (f.1.len() == 0 || !is_ws(f.1.last()))
}

pub proof fn lemma_field_line(f: TextPair)
    requires
        field_ok(f),
    ensures
        parse_field(field_line(f)) == Some(f),
        parse_h2(field_line(f)) is None,
        fence_step(0, field_line(f)) == (0u8, false),
        !is_blank(field_line(f)),
        one_line(field_line(f)),
{
    let line = field_line(f);
    let k = f.0.len() as int;
    assert(line[k] == ':');
    assert forall|j: int| 0 <= j < k implies line[j] != ':' by {
        assert(line[j] == f.0[j]);
        assert(is_key_char(f.0[j]));
    }
    lemma_find_char_unique(line, ':', k);
    assert(line.subrange(0, k) =~= f.0);
    let rest = line.subrange(k + 1, line.len() as int);
    if f.1.len() == 0 {
        assert(rest =~= Seq::<char>::empty());
    } else {
        assert(rest =~= seq![' '] + f.1);
        assert(strip_one_blank(rest) =~= f.1);
    }
    assert(trim_end(f.1) == f.1);
    // The line starts with a letter.
    assert(line[0] == f.0[0]);
    assert(!is_ws(line[0])) by {
        assert(crate::text::is_alpha(f.0[0]));
    }
    assert(trim_start(line) == line);
    assert(!starts_with(line, seq!['`', '`', '`'])) by {
        if starts_with(line, seq!['`', '`', '`']) {
            assert(line.subrange(0, 3)[0] == '`');
        }
    }
    assert(!starts_with(line, seq!['~', '~', '~'])) by {
        if starts_with(line, seq!['~', '~', '~']) {
            assert(line.subrange(0, 3)[0] == '~');
        }
    }
    assert(trim_end(line) != seq!['#', '#']) by {
        if f.1.len() == 0 {
            assert(line.last() == ':');
            assert(trim_end(line) == line);
        } else {
            assert(line.last() == f.1.last());
            assert(trim_end(line) == line);
        }
        assert(trim_end(line)[0] == line[0]);
    }
    assert(strip_prefix(line, seq!['#', '#', ' ']) is None) by {
        if starts_with(line, seq!['#', '#', ' ']) {
            assert(line.subrange(0, 3)[0] == '#');
        }
    }
    assert(!is_blank(line));
    assert(one_line(line)) by {
        assert forall|i: int| 0 <= i < line.len() implies line[i] != '\n' && line[i] != '\r' by {
            if i < k {
                assert(line[i] == f.0[i]);
                assert(is_key_char(f.0[i]));
            } else if i == k {
            } else if f.1.len() > 0 {
                if i == k + 1 {
                } else {
                    assert(line[i] == f.1[i - k - 2]);
                }
            }
        }
    }
}

pub proof fn lemma_blank_line()
    ensures
        parse_h2(Seq::<char>::empty()) is None,
        parse_field(Seq::<char>::empty()) is None,
        fence_step(0, Seq::<char>::empty()) == (0u8, false),
        is_blank(Seq::<char>::empty()),
{
    let e = Seq::<char>::empty();
    assert(trim_end(e) == e);
    assert(trim_start(e) == e);
    assert(find_char(e, ':') is None);
}

// ---------------------------------------------------------------------------
// Running the parser over lines
// ---------------------------------------------------------------------------

/// The parse state after feeding `ls` to `st`, first line first.
pub open spec fn run(st: ParseState, ls: Seq<Seq<char>>) -> ParseState
    decreases ls.len(),
{
    if ls.len() == 0 {
        st
    } else {
        run(parse_step(st, ls[0]), ls.drop_first())
    }
}

pub proof fn lemma_run_push(st: ParseState, ls: Seq<Seq<char>>, x: Seq<char>)
    ensures
        run(st, ls.push(x)) == parse_step(run(st, ls), x),
    decreases ls.len(),
{
    if ls.len() == 0 {
        assert(ls.push(x).drop_first() =~= Seq::<Seq<char>>::empty());
        assert(ls.push(x)[0] == x);
        assert(run(parse_step(st, x), Seq::<Seq<char>>::empty()) == parse_step(st, x));
    } else {
        assert(ls.push(x).drop_first() =~= ls.drop_first().push(x));
        assert(ls.push(x)[0] == ls[0]);
        lemma_run_push(parse_step(st, ls[0]), ls.drop_first(), x);
    }
}

pub open spec fn start_state() -> ParseState {
    (Seq::empty(), Seq::empty(), Seq::empty(), None, 0)
}

pub proof fn lemma_parse_lines_run(ls: Seq<Seq<char>>)
    ensures
        parse_lines(ls) == run(start_state(), ls),
    decreases ls.len(),
{
    if ls.len() > 0 {
        lemma_parse_lines_run(ls.drop_last());
        lemma_run_push(start_state(), ls.drop_last(), ls.last());
        assert(ls.drop_last().push(ls.last()) =~= ls);
    }
}

pub proof fn lemma_run_concat(st: ParseState, a: Seq<Seq<char>>, b: Seq<Seq<char>>)
    ensures
        run(st, a + b) == run(run(st, a), b),
    decreases a.len(),
{
    if a.len() == 0 {
        assert(a + b =~= b);
    } else {
        assert((a + b).drop_first() =~= a.drop_first() + b);
        assert((a + b)[0] == a[0]);
        lemma_run_concat(parse_step(st, a[0]), a.drop_first(), b);
    }
}

/// A blank line outside code before any section changes nothing.
pub proof fn lemma_blank_outside(st: ParseState)
    requires
        st.3 is None,
        st.4 == 0,
    ensures
        parse_step(st, Seq::<char>::empty()) == st,
{
    lemma_blank_line();
}

/// Field lines before any section become fields.
pub proof fn lemma_run_fields(st: ParseState, fs: Seq<TextPair>)
    requires
        st.3 is None,
        st.4 == 0,
        forall|i: int| 0 <= i < fs.len() ==> field_ok(#[trigger] fs[i]),
    ensures
        run(st, fs.map_values(|f: TextPair| field_line(f))) == (st.0 + fs, st.1, st.2, None::<(Seq<char>, Seq<Seq<char>>)>, 0u8),
    decreases fs.len(),
{
    let ls = fs.map_values(|f: TextPair| field_line(f));
    if fs.len() == 0 {
        assert(st.0 + fs =~= st.0);
        assert(ls.len() == 0);
    } else {
        lemma_field_line(fs[0]);
        let st1 = parse_step(st, ls[0]);
        assert(ls[0] == field_line(fs[0]));
        assert(st1 == (st.0.push(fs[0]), st.1, st.2, None::<(Seq<char>, Seq<Seq<char>>)>, 0u8));
        let rest = fs.drop_first();
        assert forall|i: int| 0 <= i < rest.len() implies field_ok(#[trigger] rest[i]) by {
            assert(rest[i] == fs[i + 1]);
        }
        lemma_run_fields(st1, rest);
        assert(ls.drop_first() =~= rest.map_values(|f: TextPair| field_line(f)));
        assert(st.0.push(fs[0]) + rest =~= st.0 + fs);
    }
}

/// Preamble lines read from fence state `f`: each is kept, none is a
/// heading or (outside code) a field, and code is closed at the end.
pub open spec fn preamble_ok(f: u8, ls: Seq<Seq<char>>) -> bool
    decreases ls.len(),
{
    if ls.len() == 0 {
        f == 0
    } else {
        let l = ls[0];
        let fs = fence_step(f, l);
        &&& no_char(l, '\r')
        &&& !is_blank(l)
        &&& (f == 0 ==> parse_h2(l) is None)
        &&& (!fs.1 ==> parse_field(l) is None)
        &&& preamble_ok(fs.0, ls.drop_first())
    }
}

pub proof fn lemma_run_preamble(st: ParseState, ls: Seq<Seq<char>>)
    requires
        st.3 is None,
        preamble_ok(st.4, ls),
    ensures
        run(st, ls) == (st.0, st.1 + ls, st.2, None::<(Seq<char>, Seq<Seq<char>>)>, 0u8),
    decreases ls.len(),
{
    if ls.len() == 0 {
        assert(st.1 + ls =~= st.1);
    } else {
        let l = ls[0];
        let fs = fence_step(st.4, l);
        let st1 = parse_step(st, l);
        assert(st1 == (st.0, st.1.push(l), st.2, None::<(Seq<char>, Seq<Seq<char>>)>, fs.0));
        lemma_run_preamble(st1, ls.drop_first());
        assert(st.1.push(l) + ls.drop_first() =~= st.1 + ls);
    }
}

/// Body lines read from fence state `f`: none is a heading outside code,
/// and code is closed at the end.
pub open spec fn body_ok(f: u8, ls: Seq<Seq<char>>) -> bool
    decreases ls.len(),
{
    if ls.len() == 0 {
        f == 0
    } else {
        let l = ls[0];
        &&& no_char(l, '\r')
        &&& (f == 0 ==> parse_h2(l) is None)
        &&& body_ok(fence_step(f, l).0, ls.drop_first())
    }
}

pub proof fn lemma_run_body(st: ParseState, h: Seq<char>, acc: Seq<Seq<char>>, ls: Seq<Seq<char>>)
    requires
        st.3 == Some((h, acc)),
        body_ok(st.4, ls),
    ensures
        run(st, ls) == (st.0, st.1, st.2, Some((h, acc + ls)), 0u8),
    decreases ls.len(),
{
    if ls.len() == 0 {
        assert(acc + ls =~= acc);
    } else {
        let l = ls[0];
        let st1 = parse_step(st, l);
        assert(st1 == (st.0, st.1, st.2, Some((h, acc.push(l))), fence_step(st.4, l).0));
        lemma_run_body(st1, h, acc.push(l), ls.drop_first());
        assert(acc.push(l) + ls.drop_first() =~= acc + ls);
    }
}

// ---------------------------------------------------------------------------
// The lines of a rendered document
// ---------------------------------------------------------------------------

/// The lines of blocks that each follow a blank line.
pub open spec fn tail_lines(bs: Seq<Seq<char>>) -> Seq<Seq<char>>
    decreases bs.len(),
{
    if bs.len() == 0 {
        Seq::empty()
    } else {
        tail_lines(bs.drop_last()) + seq![Seq::<char>::empty()] + split(bs.last(), '\n')
    }
}

pub proof fn lemma_tail_concat(a: Seq<Seq<char>>, b: Seq<Seq<char>>)
    ensures
        tail_lines(a + b) == tail_lines(a) + tail_lines(b),
    decreases b.len(),
{
    if b.len() == 0 {
        assert(a + b =~= a);
        assert(tail_lines(a) + tail_lines(b) =~= tail_lines(a));
    } else {
        assert((a + b).drop_last() =~= a + b.drop_last());
        assert((a + b).last() == b.last());
        lemma_tail_concat(a, b.drop_last());
        assert(tail_lines(a + b) =~= tail_lines(a) + tail_lines(b));
    }
}

pub proof fn lemma_tail_single(x: Seq<char>)
    ensures
        tail_lines(seq![x]) == seq![Seq::<char>::empty()] + split(x, '\n'),
{
    assert(seq![x].drop_last() =~= Seq::<Seq<char>>::empty());
    assert(seq![x].last() == x);
    assert(tail_lines(Seq::<Seq<char>>::empty()) == Seq::<Seq<char>>::empty());
    assert(Seq::<Seq<char>>::empty() + seq![Seq::<char>::empty()] =~= seq![Seq::<char>::empty()]);
}

pub proof fn lemma_run_one(st: ParseState, x: Seq<char>)
    ensures
        run(st, seq![x]) == parse_step(st, x),
{
    assert(seq![x][0] == x);
    assert(seq![x].drop_first() =~= Seq::<Seq<char>>::empty());
    assert(run(parse_step(st, x), Seq::<Seq<char>>::empty()) == parse_step(st, x));
}

/// Blocks joined by a blank line split into the first block's lines and,
/// for each later block, a blank line and its lines.
pub proof fn lemma_split_blocks(bs: Seq<Seq<char>>)
    requires
        bs.len() > 0,
    ensures
        split(join(bs, seq!['\n', '\n']), '\n') == split(bs[0], '\n') + tail_lines(bs.drop_first()),
    decreases bs.len(),
{
    if bs.len() == 1 {
        assert(bs.drop_first() =~= Seq::<Seq<char>>::empty());
        assert(split(bs[0], '\n') + Seq::<Seq<char>>::empty() =~= split(bs[0], '\n'));
    } else {
        let w = bs.drop_last();
        lemma_split_blocks(w);
        let j = join(w, seq!['\n', '\n']);
        let x = bs.last();
        assert(j + seq!['\n', '\n'] + x =~= j + seq!['\n'] + (Seq::<char>::empty() + seq!['\n'] + x));
        lemma_split_concat(j, Seq::<char>::empty() + seq!['\n'] + x, '\n');
        lemma_split_concat(Seq::<char>::empty(), x, '\n');
        assert(Seq::<char>::empty() + seq!['\n'] + x =~= seq!['\n'] + x);
        assert(split(Seq::<char>::empty(), '\n') =~= seq![Seq::<char>::empty()]);
        assert(bs.drop_first().drop_last() =~= w.drop_first());
        assert(bs.drop_first().last() == x);
        assert(w[0] == bs[0]);
        assert(split(join(bs, seq!['\n', '\n']), '\n') =~= split(bs[0], '\n') + tail_lines(bs.drop_first()));
    }
}

// ---------------------------------------------------------------------------
// Sections
// ---------------------------------------------------------------------------

/// The lines a section's body adds after its heading.
pub open spec fn body_acc(b: Seq<char>) -> Seq<Seq<char>> {
    if b.len() == 0 {
        Seq::empty()
    } else {
        seq![Seq::<char>::empty()] + split(b, '\n')
    }
}

/// A section that reads back as itself.
pub open spec fn section_ok(sec: TextPair) -> bool {
    &&& one_line(sec.0)
    &&& tight(sec.0)
    &&& no_char(sec.1, '\r')
    &&& (sec.1.len() > 0 ==> {
        let ls = split(sec.1, '\n');
        &&& !is_blank(ls[0])
        &&& !is_blank(ls.last())
        &&& body_ok(0, ls)
    })
}

pub proof fn lemma_section_lines(sec: TextPair)
    requires
        one_line(sec.0),
    ensures
        split(section_text(sec), '\n') == seq![h2_line(sec.0)] + body_acc(sec.1),
{
    let h = h2_line(sec.0);
    assert(no_char(h, '\n')) by {
        assert forall|i: int| 0 <= i < h.len() implies h[i] != '\n' by {
            if i >= 3 {
                assert(h[i] == sec.0[i - 3]);
            }
        }
    }
    lemma_split_single(h, '\n');
    if sec.1.len() == 0 {
        assert(section_text(sec) == h);
        assert(seq![h] + Seq::<Seq<char>>::empty() =~= seq![h]);
    } else {
        let b = sec.1;
        assert(section_text(sec) =~= h + seq!['\n'] + (Seq::<char>::empty() + seq!['\n'] + b));
        lemma_split_concat(h, Seq::<char>::empty() + seq!['\n'] + b, '\n');
        lemma_split_concat(Seq::<char>::empty(), b, '\n');
        assert(split(Seq::<char>::empty(), '\n') =~= seq![Seq::<char>::empty()]);
        assert(seq![h] + (seq![Seq::<char>::empty()] + split(b, '\n')) =~= seq![h] + body_acc(b));
    }
}

pub proof fn lemma_body_acc_ok(b: Seq<char>)
    requires
        b.len() > 0 ==> body_ok(0, split(b, '\n')),
    ensures
        body_ok(0, body_acc(b)),
{
    lemma_blank_line();
    if b.len() > 0 {
        let acc = body_acc(b);
        assert(acc[0] == Seq::<char>::empty());
        assert(acc.drop_first() =~= split(b, '\n'));
        assert(no_char(Seq::<char>::empty(), '\r'));
    }
}

/// Closing a section drops the blank lines around its body.
pub proof fn lemma_close_body(b: Seq<char>)
    requires
        b.len() > 0 ==> !is_blank(split(b, '\n')[0]) && !is_blank(split(b, '\n').last()),
    ensures
        trim_blank_lines(body_acc(b).push(Seq::<char>::empty())) == b,
{
    let e = Seq::<char>::empty();
    assert(is_blank(e));
    if b.len() == 0 {
        let acc = body_acc(b).push(e);
        assert(acc =~= seq![e]);
        assert(acc.drop_first() =~= Seq::<Seq<char>>::empty());
        assert(drop_leading_blank(acc) == drop_leading_blank(Seq::<Seq<char>>::empty()));
        assert(drop_leading_blank(acc) =~= Seq::<Seq<char>>::empty());
        assert(drop_trailing_blank(Seq::<Seq<char>>::empty()) =~= Seq::<Seq<char>>::empty());
    } else {
        let l = split(b, '\n');
        lemma_split_nonempty(b, '\n');
        let acc = body_acc(b).push(e);
        assert(acc =~= seq![e] + l.push(e));
        assert(acc.drop_first() =~= l.push(e));
        assert(l.push(e)[0] == l[0]);
        assert(drop_leading_blank(l.push(e)) == l.push(e));
        assert(drop_leading_blank(acc) == l.push(e));
        assert(l.push(e).drop_last() =~= l);
        assert(drop_trailing_blank(l) == l);
        assert(drop_trailing_blank(l.push(e)) == l);
        lemma_join_split(b, '\n');
    }
}

pub proof fn lemma_run_sections(st: ParseState, secs: Seq<TextPair>)
    requires
        st.3 is None,
        st.4 == 0,
        secs.len() > 0,
        forall|i: int| 0 <= i < secs.len() ==> section_ok(#[trigger] secs[i]),
    ensures
        run(st, tail_lines(secs.map_values(|sec: TextPair| section_text(sec)))) == (
            st.0,
            st.1,
            st.2 + secs.drop_last(),
            Some((secs.last().0, body_acc(secs.last().1))),
            0u8,
        ),
    decreases secs.len(),
{
    let texts = secs.map_values(|sec: TextPair| section_text(sec));
    let last = secs.last();
    assert(section_ok(secs[secs.len() - 1]));
    lemma_section_lines(last);
    lemma_h2_line(last.0);
    lemma_blank_line();
    lemma_body_acc_ok(last.1);
    assert(texts.last() == section_text(last));
    let tail = seq![Seq::<char>::empty()] + (seq![h2_line(last.0)] + body_acc(last.1));
    if secs.len() == 1 {
        assert(texts =~= seq![section_text(last)]);
        lemma_tail_single(section_text(last));
        assert(tail_lines(texts) =~= tail);
        assert(tail =~= seq![Seq::<char>::empty()] + seq![h2_line(last.0)] + body_acc(last.1));
        lemma_run_concat(st, seq![Seq::<char>::empty()] + seq![h2_line(last.0)], body_acc(last.1));
        lemma_run_concat(st, seq![Seq::<char>::empty()], seq![h2_line(last.0)]);
        let st1 = parse_step(st, Seq::<char>::empty());
        assert(st1 == st);
        lemma_run_one(st, Seq::<char>::empty());
        assert(run(st, seq![Seq::<char>::empty()]) == st1);
        let st2 = parse_step(st, h2_line(last.0));
        assert(st2 == (st.0, st.1, st.2, Some((last.0, Seq::<Seq<char>>::empty())), 0u8));
        lemma_run_one(st, h2_line(last.0));
        assert(run(st, seq![h2_line(last.0)]) == st2);
        lemma_run_body(st2, last.0, Seq::<Seq<char>>::empty(), body_acc(last.1));
        assert(Seq::<Seq<char>>::empty() + body_acc(last.1) =~= body_acc(last.1));
        assert(secs.drop_last() =~= Seq::<TextPair>::empty());
        assert(st.2 + secs.drop_last() =~= st.2);
    } else {
        let w = secs.drop_last();
        assert forall|i: int| 0 <= i < w.len() implies section_ok(#[trigger] w[i]) by {
            assert(w[i] == secs[i]);
        }
        lemma_run_sections(st, w);
        assert(texts.drop_last() =~= w.map_values(|sec: TextPair| section_text(sec)));
        let prev = w.last();
        assert(section_ok(secs[secs.len() - 2]));
        assert(prev == secs[secs.len() - 2]);
        let s1 = (st.0, st.1, st.2 + w.drop_last(), Some((prev.0, body_acc(prev.1))), 0u8);
        assert(run(st, tail_lines(w.map_values(|sec: TextPair| section_text(sec)))) == s1);
        assert(tail_lines(texts) =~= tail_lines(w.map_values(|sec: TextPair| section_text(sec))) + tail);
        lemma_run_concat(st, tail_lines(w.map_values(|sec: TextPair| section_text(sec))), tail);
        assert(tail =~= seq![Seq::<char>::empty()] + seq![h2_line(last.0)] + body_acc(last.1));
        lemma_run_concat(s1, seq![Seq::<char>::empty()] + seq![h2_line(last.0)], body_acc(last.1));
        lemma_run_concat(s1, seq![Seq::<char>::empty()], seq![h2_line(last.0)]);
        let s2 = parse_step(s1, Seq::<char>::empty());
        assert(s2 == (s1.0, s1.1, s1.2, Some((prev.0, body_acc(prev.1).push(Seq::<char>::empty()))), 0u8));
        lemma_run_one(s1, Seq::<char>::empty());
        assert(run(s1, seq![Seq::<char>::empty()]) == s2);
        let s3 = parse_step(s2, h2_line(last.0));
        lemma_close_body(prev.1);
        assert(close_section(s2.2, s2.3) == s2.2.push(prev));
        assert(st.2 + w.drop_last() + seq![prev] =~= st.2 + w) by {
            assert(w.drop_last().push(prev) =~= w);
        }
        assert(s3 == (st.0, st.1, st.2 + w, Some((last.0, Seq::<Seq<char>>::empty())), 0u8));
        lemma_run_one(s2, h2_line(last.0));
        assert(run(s2, seq![h2_line(last.0)]) == s3);
        lemma_run_body(s3, last.0, Seq::<Seq<char>>::empty(), body_acc(last.1));
        assert(Seq::<Seq<char>>::empty() + body_acc(last.1) =~= body_acc(last.1));
    }
}

// ---------------------------------------------------------------------------
// Documents
// ---------------------------------------------------------------------------

/// A document whose parts can be told apart in its rendered text.
pub open spec fn doc_wf(d: DocView) -> bool {
    &&& one_line(d.0)
    &&& tight(d.0)
    &&& forall|i: int| 0 <= i < d.1.len() ==> field_ok(#[trigger] d.1[i])
    &&& no_char(d.2, '\r')
    &&& (d.2.len() > 0 ==> preamble_ok(0, split(d.2, '\n')))
    &&& forall|i: int| 0 <= i < d.3.len() ==> section_ok(#[trigger] d.3[i])
}

/// The rendered text has no `\r` when no part of the document has one.
pub proof fn lemma_no_cr_text(d: DocView)
    requires
        one_line(d.0),
        forall|i: int| 0 <= i < d.1.len() ==> field_ok(#[trigger] d.1[i]),
        no_char(d.2, '\r'),
        forall|i: int| #![trigger d.3[i]] 0 <= i < d.3.len() ==> one_line(d.3[i].0) && no_char(d.3[i].1, '\r'),
    ensures
        no_char(doc_text(d), '\r'),
{
    let bs = doc_blocks(d);
    let t = title_line(d.0);
    assert(no_char(t, '\r')) by {
        assert forall|i: int| 0 <= i < t.len() implies t[i] != '\r' by {
            if d.0.len() > 0 && i >= 2 {
                assert(t[i] == d.0[i - 2]);
            }
        }
    }
    let fl = d.1.map_values(|f: TextPair| field_line(f));
    assert forall|i: int| 0 <= i < fl.len() implies no_char(#[trigger] fl[i], '\r') by {
        lemma_field_line(d.1[i]);
    }
    lemma_no_char_join(fl, seq!['\n'], '\r');
    let st = d.3.map_values(|sec: TextPair| section_text(sec));
    assert forall|i: int| 0 <= i < st.len() implies no_char(#[trigger] st[i], '\r') by {
        let sec = d.3[i];
        assert(one_line(sec.0) && no_char(sec.1, '\r'));
        let h = seq!['#', '#', ' '] + sec.0;
        assert(no_char(h, '\r')) by {
            assert forall|k: int| 0 <= k < h.len() implies h[k] != '\r' by {
                if k >= 3 {
                    assert(h[k] == sec.0[k - 3]);
                }
            }
        }
        if sec.1.len() > 0 {
            lemma_no_char_concat(h, seq!['\n', '\n'], '\r');
            lemma_no_char_concat(h + seq!['\n', '\n'], sec.1, '\r');
        }
    }
    assert forall|i: int| 0 <= i < bs.len() implies no_char(#[trigger] bs[i], '\r') by {
        let nf: int = if d.1.len() > 0 { 1 } else { 0 };
        let np: int = if d.2.len() > 0 { 1 } else { 0 };
        if i == 0 {
            assert(bs[i] == t);
        } else if i < 1 + nf {
            assert(bs[i] == fields_text(d.1));
        } else if i < 1 + nf + np {
            assert(bs[i] == d.2);
        } else {
            assert(bs[i] == st[i - 1 - nf - np]);
        }
    }
    lemma_no_char_join(bs, seq!['\n', '\n'], '\r');
    lemma_no_char_concat(join(bs, seq!['\n', '\n']), seq!['\n'], '\r');
    assert(doc_text(d) =~= join(bs, seq!['\n', '\n']) + seq!['\n']);
}

/// Reading a rendered document gives the document back.
pub proof fn lemma_md_round_trip(d: DocView)
    requires
        doc_wf(d),
    ensures
        parse_doc(doc_text(d)) == Some(d),
{
    let e = Seq::<char>::empty();
    let bs = doc_blocks(d);
    let t = title_line(d.0);
    let fblocks: Seq<Seq<char>> = if d.1.len() > 0 { seq![fields_text(d.1)] } else { Seq::empty() };
    let pblocks: Seq<Seq<char>> = if d.2.len() > 0 { seq![d.2] } else { Seq::empty() };
    let sblocks = d.3.map_values(|sec: TextPair| section_text(sec));
    assert(bs =~= seq![t] + fblocks + pblocks + sblocks);
    // The text has no `\r`, so its lines are its `\n`-separated pieces.
    assert forall|i: int| #![trigger d.3[i]] 0 <= i < d.3.len() implies one_line(d.3[i].0) && no_char(d.3[i].1, '\r') by {
        assert(section_ok(d.3[i]));
    }
    lemma_no_cr_text(d);
    lemma_crlf_none(doc_text(d));
    let j = join(bs, seq!['\n', '\n']);
    assert(doc_text(d) =~= j + seq!['\n'] + e);
    lemma_split_concat(j, e, '\n');
    assert(split(e, '\n') =~= seq![e]);
    lemma_split_blocks(bs);
    assert(bs.drop_first() =~= fblocks + pblocks + sblocks);
    assert(bs[0] == t);
    assert(no_char(t, '\n')) by {
        assert forall|i: int| 0 <= i < t.len() implies t[i] != '\n' by {
            if d.0.len() > 0 && i >= 2 {
                assert(t[i] == d.0[i - 2]);
            }
        }
    }
    lemma_split_single(t, '\n');
    lemma_tail_concat(fblocks + pblocks, sblocks);
    lemma_tail_concat(fblocks, pblocks);
    let ls = split(doc_text(d), '\n');
    let rest = tail_lines(fblocks) + tail_lines(pblocks) + tail_lines(sblocks) + seq![e];
    assert(ls =~= seq![t] + rest);
    // The title.
    lemma_title_line(d.0);
    assert(ls[0] == t);
    assert(first_nonblank(ls) == Some(0int));
    assert(ls.subrange(1, ls.len() as int) =~= rest);
    lemma_parse_lines_run(rest);
    // Fields.
    let s0 = start_state();
    lemma_run_concat(s0, tail_lines(fblocks) + tail_lines(pblocks) + tail_lines(sblocks), seq![e]);
    lemma_run_concat(s0, tail_lines(fblocks) + tail_lines(pblocks), tail_lines(sblocks));
    lemma_run_concat(s0, tail_lines(fblocks), tail_lines(pblocks));
    let s1 = run(s0, tail_lines(fblocks));
    lemma_blank_line();
    if d.1.len() > 0 {
        lemma_tail_single(fields_text(d.1));
        let fl = d.1.map_values(|f: TextPair| field_line(f));
        assert forall|i: int| 0 <= i < fl.len() implies no_char(#[trigger] fl[i], '\n') by {
            lemma_field_line(d.1[i]);
        }
        lemma_split_join(fl, '\n');
        lemma_run_concat(s0, seq![e], fl);
        lemma_run_one(s0, e);
        lemma_run_fields(s0, d.1);
        assert(Seq::<TextPair>::empty() + d.1 =~= d.1);
        assert(s1 == (d.1, Seq::<Seq<char>>::empty(), Seq::<TextPair>::empty(), None::<(Seq<char>, Seq<Seq<char>>)>, 0u8));
    } else {
        assert(tail_lines(fblocks) =~= Seq::<Seq<char>>::empty());
        assert(d.1 =~= Seq::<TextPair>::empty());
        assert(s1 == (d.1, Seq::<Seq<char>>::empty(), Seq::<TextPair>::empty(), None::<(Seq<char>, Seq<Seq<char>>)>, 0u8));
    }
    // Preamble.
    let s2 = run(s1, tail_lines(pblocks));
    let pl: Seq<Seq<char>> = if d.2.len() > 0 { split(d.2, '\n') } else { Seq::empty() };
    if d.2.len() > 0 {
        lemma_tail_single(d.2);
        lemma_run_concat(s1, seq![e], split(d.2, '\n'));
        lemma_run_one(s1, e);
        lemma_run_preamble(s1, split(d.2, '\n'));
        assert(Seq::<Seq<char>>::empty() + split(d.2, '\n') =~= split(d.2, '\n'));
        lemma_join_split(d.2, '\n');
    } else {
        assert(tail_lines(pblocks) =~= Seq::<Seq<char>>::empty());
        assert(d.2 =~= e);
    }
    assert(s2 == (d.1, pl, Seq::<TextPair>::empty(), None::<(Seq<char>, Seq<Seq<char>>)>, 0u8));
    assert(join(pl, seq!['\n']) == d.2);
    // Sections.
    let s3 = run(s2, tail_lines(sblocks));
    let s4 = run(s3, seq![e]);
    lemma_run_one(s3, e);
    if d.3.len() > 0 {
        lemma_run_sections(s2, d.3);
        assert(Seq::<TextPair>::empty() + d.3.drop_last() =~= d.3.drop_last());
        let last = d.3.last();
        assert(section_ok(d.3[d.3.len() - 1]));
        lemma_close_body(last.1);
        assert(s4.3 == Some((last.0, body_acc(last.1).push(e))));
        assert(close_section(s4.2, s4.3) =~= d.3.drop_last().push(last));
        assert(d.3.drop_last().push(last) =~= d.3);
    } else {
        assert(sblocks =~= Seq::<Seq<char>>::empty());
        assert(tail_lines(sblocks) =~= Seq::<Seq<char>>::empty());
        assert(s3 == s2);
        assert(s4 == s2);
        assert(close_section(s4.2, s4.3) =~= d.3);
    }
    assert(parse_lines(rest) == s4);
}

/// A section body that reads back as itself: no `\r`, and when not empty,
/// no blank first or last line and no line that reads as a heading outside
/// code fences.
pub open spec fn body_reads_back(b: Seq<char>) -> bool {
    &&& no_char(b, '\r')
    &&& (b.len() > 0 ==> {
        let ls = split(b, '\n');
        &&& !is_blank(ls[0])
        &&& !is_blank(ls.last())
        &&& body_ok(0, ls)
    })
}

} // verus!
