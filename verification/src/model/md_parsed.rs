//! A document read from text renders to text that reads back as the same
//! document.
//!
//! Each step of the parser keeps what the renderer needs: fields that read
//! back as themselves, preamble lines that are not blank and read neither as
//! headings nor as fields outside code, and sections whose bodies have no
//! blank edge lines and no line that reads as a heading outside code.

use vstd::prelude::*;

use super::md::{
    close_section, doc_blocks, doc_text, drop_leading_blank, drop_trailing_blank, fence_marker,
    fence_step, field_line, fields_text, first_nonblank, parse_doc, parse_field, parse_h2,
    parse_lines, parse_step, parse_title, section_text, strip_one_blank, title_line,
    trim_blank_lines, valid_key, DocView, ParseState, TextPair,
};
use super::md_law::{
    body_acc, body_ok, field_ok, h2_line, lemma_blank_line, lemma_close_body, lemma_crlf_none,
    lemma_field_line, lemma_h2_line, lemma_no_char_join, lemma_no_cr_text, lemma_parse_lines_run,
    lemma_run_concat, lemma_run_fields, lemma_run_one, lemma_run_sections, lemma_section_lines,
    lemma_split_blocks, lemma_split_concat, lemma_split_join, lemma_split_single,
    lemma_tail_concat, lemma_tail_single, lemma_title_line, no_char, one_line, run, section_ok,
    start_state, tail_lines, tight,
};
use crate::text::{
    crlf_to_lf, find_char, is_blank, is_ws, join, lemma_blank_trim, split, split_once,
    starts_with, strip_prefix, trim, trim_end, trim_start,
};

verus! {

// ---------------------------------------------------------------------------
// Trimming keeps characters and leaves no whitespace at the edges
// ---------------------------------------------------------------------------

proof fn lemma_trim_start_shape(s: Seq<char>)
    ensures
        trim_start(s) == s.subrange(s.len() - trim_start(s).len(), s.len() as int),
        trim_start(s).len() <= s.len(),
        trim_start(s).len() > 0 ==> !is_ws(trim_start(s)[0]),
    decreases s.len(),
{
    if s.len() > 0 && is_ws(s[0]) {
        lemma_trim_start_shape(s.drop_first());
        let t = trim_start(s.drop_first());
        assert(s.drop_first().subrange(s.drop_first().len() - t.len(), s.drop_first().len() as int)
            =~= s.subrange(s.len() - t.len(), s.len() as int));
    } else {
        assert(s.subrange(0, s.len() as int) =~= s);
    }
}

proof fn lemma_trim_end_shape(s: Seq<char>)
    ensures
        trim_end(s) == s.subrange(0, trim_end(s).len() as int),
        trim_end(s).len() <= s.len(),
        trim_end(s).len() > 0 ==> !is_ws(trim_end(s).last()),
    decreases s.len(),
{
    if s.len() > 0 && is_ws(s.last()) {
        lemma_trim_end_shape(s.drop_last());
        let t = trim_end(s.drop_last());
        assert(s.drop_last().subrange(0, t.len() as int) =~= s.subrange(0, t.len() as int));
    } else {
        assert(s.subrange(0, s.len() as int) =~= s);
    }
}

proof fn lemma_no_char_sub(s: Seq<char>, a: int, b: int, c: char)
    requires
        0 <= a <= b <= s.len(),
        no_char(s, c),
    ensures
        no_char(s.subrange(a, b), c),
{
    assert forall|i: int| 0 <= i < b - a implies s.subrange(a, b)[i] != c by {
        assert(s.subrange(a, b)[i] == s[a + i]);
    }
}

proof fn lemma_one_line_sub(s: Seq<char>, a: int, b: int)
    requires
        0 <= a <= b <= s.len(),
        one_line(s),
    ensures
        one_line(s.subrange(a, b)),
{
    lemma_no_char_sub(s, a, b, '\n');
    lemma_no_char_sub(s, a, b, '\r');
}

/// Trimmed text has no whitespace at either end and no character that the
/// text did not have.
proof fn lemma_trim_tight(s: Seq<char>)
    requires
        one_line(s),
    ensures
        tight(trim(s)),
        one_line(trim(s)),
{
    lemma_trim_start_shape(s);
    let u = trim_start(s);
    lemma_one_line_sub(s, s.len() - u.len(), s.len() as int);
    lemma_trim_end_shape(u);
    let v = trim_end(u);
    lemma_one_line_sub(u, 0, v.len() as int);
    if v.len() > 0 {
        assert(v[0] == u[0]);
    }
}

proof fn lemma_trim_end_one_line(s: Seq<char>)
    requires
        one_line(s),
    ensures
        one_line(trim_end(s)),
        trim_end(s).len() == 0 || !is_ws(trim_end(s).last()),
{
    lemma_trim_end_shape(s);
    lemma_one_line_sub(s, 0, trim_end(s).len() as int);
}

// ---------------------------------------------------------------------------
// What the parser reads from one line
// ---------------------------------------------------------------------------

proof fn lemma_title_read(l: Seq<char>)
    requires
        one_line(l),
        parse_title(l) is Some,
    ensures
        one_line(parse_title(l).unwrap()),
        tight(parse_title(l).unwrap()),
{
    if trim_end(l) != seq!['#'] {
        let t = strip_prefix(l, seq!['#', ' ']).unwrap();
        lemma_one_line_sub(l, 2, l.len() as int);
        lemma_trim_tight(t);
    }
}

proof fn lemma_heading_read(l: Seq<char>)
    requires
        one_line(l),
        parse_h2(l) is Some,
    ensures
        one_line(parse_h2(l).unwrap()),
        tight(parse_h2(l).unwrap()),
        fence_marker(l) == 0,
{
    if trim_end(l) != seq!['#', '#'] {
        let t = strip_prefix(l, seq!['#', '#', ' ']).unwrap();
        lemma_one_line_sub(l, 3, l.len() as int);
        lemma_trim_tight(t);
        assert(l[0] == l.subrange(0, 3)[0]);
    } else {
        lemma_trim_end_shape(l);
        assert(l[0] == trim_end(l)[0]);
    }
    assert(l[0] == '#');
    assert(!is_ws('#'));
    assert(trim_start(l) == l);
    assert(!starts_with(l, seq!['`', '`', '`'])) by {
        if l.len() >= 3 {
            assert(l.subrange(0, 3)[0] == '#');
        }
    }
    assert(!starts_with(l, seq!['~', '~', '~'])) by {
        if l.len() >= 3 {
            assert(l.subrange(0, 3)[0] == '#');
        }
    }
}

proof fn lemma_field_read(l: Seq<char>)
    requires
        one_line(l),
        parse_field(l) is Some,
    ensures
        field_ok(parse_field(l).unwrap()),
{
    let kv = split_once(l, ':').unwrap();
    let i = find_char(l, ':').unwrap();
    crate::text::lemma_find_char(l, ':');
    assert(valid_key(kv.0));
    lemma_one_line_sub(l, i + 1, l.len() as int);
    let v = strip_one_blank(kv.1);
    assert(one_line(v)) by {
        if kv.1.len() > 0 && (kv.1[0] == ' ' || kv.1[0] == '\t') {
            lemma_one_line_sub(kv.1, 1, kv.1.len() as int);
            assert(kv.1.drop_first() =~= kv.1.subrange(1, kv.1.len() as int));
        }
    }
    lemma_trim_end_one_line(v);
}

/// A blank line leaves the fence state as it is.
proof fn lemma_blank_fence(f: u8, l: Seq<char>)
    requires
        is_blank(l),
    ensures
        fence_step(f, l).0 == f,
        fence_marker(l) == 0,
{
    lemma_blank_trim(l);
    assert(trim_start(l).len() == 0);
}

// ---------------------------------------------------------------------------
// Lines read in order
// ---------------------------------------------------------------------------

/// The code-fence state after reading `ls` from state `f`.
pub open spec fn fence_after(f: u8, ls: Seq<Seq<char>>) -> u8
    decreases ls.len(),
{
    if ls.len() == 0 {
        f
    } else {
        fence_after(fence_step(f, ls[0]).0, ls.drop_first())
    }
}

/// A preamble line read in fence state `f`.
pub open spec fn preamble_line_ok(f: u8, l: Seq<char>) -> bool {
    &&& no_char(l, '\r')
    &&& !is_blank(l)
    &&& (f == 0 ==> parse_h2(l) is None)
    &&& (!fence_step(f, l).1 ==> parse_field(l) is None)
}

/// A section body line read in fence state `f`.
pub open spec fn body_line_ok(f: u8, l: Seq<char>) -> bool {
    &&& no_char(l, '\r')
    &&& (f == 0 ==> parse_h2(l) is None)
}

/// Every line of `ls`, read from state `f`, is a preamble line.
pub open spec fn preamble_lines(f: u8, ls: Seq<Seq<char>>) -> bool
    decreases ls.len(),
{
    ls.len() == 0 || (preamble_line_ok(f, ls[0]) && preamble_lines(fence_step(f, ls[0]).0, ls.drop_first()))
}

/// Every line of `ls`, read from state `f`, is a body line.
pub open spec fn body_lines(f: u8, ls: Seq<Seq<char>>) -> bool
    decreases ls.len(),
{
    ls.len() == 0 || (body_line_ok(f, ls[0]) && body_lines(fence_step(f, ls[0]).0, ls.drop_first()))
}

proof fn lemma_fence_push(f: u8, ls: Seq<Seq<char>>, l: Seq<char>)
    ensures
        fence_after(f, ls.push(l)) == fence_step(fence_after(f, ls), l).0,
        preamble_lines(f, ls.push(l)) == (preamble_lines(f, ls) && preamble_line_ok(fence_after(f, ls), l)),
        body_lines(f, ls.push(l)) == (body_lines(f, ls) && body_line_ok(fence_after(f, ls), l)),
    decreases ls.len(),
{
    if ls.len() == 0 {
        let g = fence_step(f, l).0;
        assert(ls.push(l)[0] == l);
        assert(ls.push(l).drop_first() =~= Seq::<Seq<char>>::empty());
        assert(fence_after(g, ls.push(l).drop_first()) == g);
        assert(preamble_lines(g, ls.push(l).drop_first()));
        assert(body_lines(g, ls.push(l).drop_first()));
        assert(fence_after(f, ls) == f);
    } else {
        assert(ls.push(l)[0] == ls[0]);
        assert(ls.push(l).drop_first() =~= ls.drop_first().push(l));
        lemma_fence_push(fence_step(f, ls[0]).0, ls.drop_first(), l);
    }
}

proof fn lemma_body_closed(f: u8, ls: Seq<Seq<char>>)
    requires
        body_lines(f, ls),
        fence_after(f, ls) == 0,
    ensures
        body_ok(f, ls),
    decreases ls.len(),
{
    if ls.len() > 0 {
        lemma_body_closed(fence_step(f, ls[0]).0, ls.drop_first());
    }
}

/// Dropping blank lines at the start keeps the body lines and the state
/// after them.
proof fn lemma_drop_leading_body(f: u8, ls: Seq<Seq<char>>)
    requires
        body_lines(f, ls),
        forall|i: int| 0 <= i < ls.len() ==> one_line(#[trigger] ls[i]),
    ensures
        body_lines(f, drop_leading_blank(ls)),
        fence_after(f, drop_leading_blank(ls)) == fence_after(f, ls),
        forall|i: int| 0 <= i < drop_leading_blank(ls).len() ==> one_line(#[trigger] drop_leading_blank(ls)[i]),
        drop_leading_blank(ls).len() > 0 ==> !is_blank(drop_leading_blank(ls)[0]),
    decreases ls.len(),
{
    if ls.len() > 0 && is_blank(ls[0]) {
        lemma_blank_fence(f, ls[0]);
        let r = ls.drop_first();
        assert forall|i: int| 0 <= i < r.len() implies one_line(#[trigger] r[i]) by {
            assert(r[i] == ls[i + 1]);
        }
        lemma_drop_leading_body(f, r);
    }
}

/// Dropping blank lines at the end keeps the body lines and the state
/// after them.
proof fn lemma_drop_trailing_body(f: u8, ls: Seq<Seq<char>>)
    requires
        body_lines(f, ls),
        forall|i: int| 0 <= i < ls.len() ==> one_line(#[trigger] ls[i]),
    ensures
        body_lines(f, drop_trailing_blank(ls)),
        fence_after(f, drop_trailing_blank(ls)) == fence_after(f, ls),
        drop_trailing_blank(ls).len() <= ls.len(),
        drop_trailing_blank(ls) == ls.subrange(0, drop_trailing_blank(ls).len() as int),
        drop_trailing_blank(ls).len() > 0 ==> !is_blank(drop_trailing_blank(ls).last()),
    decreases ls.len(),
{
    if ls.len() > 0 && is_blank(ls.last()) {
        let r = ls.drop_last();
        lemma_fence_push(f, r, ls.last());
        assert(r.push(ls.last()) =~= ls);
        lemma_blank_fence(fence_after(f, r), ls.last());
        assert forall|i: int| 0 <= i < r.len() implies one_line(#[trigger] r[i]) by {
            assert(r[i] == ls[i]);
        }
        lemma_drop_trailing_body(f, r);
        let d = drop_trailing_blank(r);
        assert(r.subrange(0, d.len() as int) =~= ls.subrange(0, d.len() as int));
    } else {
        assert(ls.subrange(0, ls.len() as int) =~= ls);
    }
}

/// A section that may leave a code fence open at its end: it reads back as
/// itself when it is the last part of a document.
pub open spec fn section_open_ok(sec: TextPair) -> bool {
    &&& one_line(sec.0)
    &&& tight(sec.0)
    &&& no_char(sec.1, '\r')
    &&& (sec.1.len() > 0 ==> {
        let ls = split(sec.1, '\n');
        &&& !is_blank(ls[0])
        &&& !is_blank(ls.last())
        &&& body_lines(0, ls)
    })
}

/// A section closed by the parser can be rendered again; it reads back as
/// itself anywhere when its fences are closed.
proof fn lemma_trimmed_section(h: Seq<char>, acc: Seq<Seq<char>>)
    requires
        one_line(h),
        tight(h),
        forall|i: int| 0 <= i < acc.len() ==> one_line(#[trigger] acc[i]),
        body_lines(0, acc),
    ensures
        section_open_ok((h, trim_blank_lines(acc))),
        fence_after(0, acc) == 0 ==> section_ok((h, trim_blank_lines(acc))),
{
    lemma_drop_leading_body(0, acc);
    let a = drop_leading_blank(acc);
    lemma_drop_trailing_body(0, a);
    let r = drop_trailing_blank(a);
    assert forall|i: int| 0 <= i < r.len() implies one_line(#[trigger] r[i]) by {
        assert(r[i] == a[i]);
    }
    let b = join(r, seq!['\n']);
    assert(b == trim_blank_lines(acc));
    assert forall|i: int| 0 <= i < r.len() implies no_char(#[trigger] r[i], '\r') by {}
    lemma_no_char_join(r, seq!['\n'], '\r');
    if b.len() > 0 {
        assert(r.len() > 0);
        assert forall|i: int| 0 <= i < r.len() implies no_char(#[trigger] r[i], '\n') by {}
        lemma_split_join(r, '\n');
        assert(r[0] == a[0]);
        if fence_after(0, acc) == 0 {
            lemma_body_closed(0, r);
        }
    }
}

// ---------------------------------------------------------------------------
// What the parser has read so far
// ---------------------------------------------------------------------------

/// Fields that read back, preamble lines read in order, closed sections
/// that read back, and an open section whose heading and lines can be
/// rendered again.
pub open spec fn parsed_state_ok(st: ParseState) -> bool {
    &&& forall|i: int| 0 <= i < st.0.len() ==> field_ok(#[trigger] st.0[i])
    &&& forall|i: int| 0 <= i < st.1.len() ==> one_line(#[trigger] st.1[i])
    &&& preamble_lines(0, st.1)
    &&& fence_after(0, st.1) == (if st.3 is None { st.4 } else { 0u8 })
    &&& (st.3 is None ==> st.2.len() == 0)
    &&& forall|i: int| 0 <= i < st.2.len() ==> section_ok(#[trigger] st.2[i])
    &&& match st.3 {
        Some(c) => {
            &&& one_line(c.0)
            &&& tight(c.0)
            &&& forall|i: int| 0 <= i < c.1.len() ==> one_line(#[trigger] c.1[i])
            &&& body_lines(0, c.1)
            &&& fence_after(0, c.1) == st.4
        },
        None => true,
    }
}

proof fn lemma_step_ok(st: ParseState, l: Seq<char>)
    requires
        parsed_state_ok(st),
        one_line(l),
    ensures
        parsed_state_ok(parse_step(st, l)),
        parse_step(st, l).4 == fence_step(st.4, l).0,
{
    let heading = if st.4 == 0 { parse_h2(l) } else { None };
    let n = parse_step(st, l);
    match heading {
        Some(h) => {
            lemma_heading_read(l);
            match st.3 {
                Some(c) => {
                    lemma_trimmed_section(c.0, c.1);
                    let secs = st.2.push((c.0, trim_blank_lines(c.1)));
                    assert(n.2 == secs);
                    assert forall|i: int| 0 <= i < secs.len() implies section_ok(#[trigger] secs[i]) by {
                        if i < st.2.len() {
                            assert(secs[i] == st.2[i]);
                        }
                    }
                },
                None => {},
            }
            assert(n.3 == Some((h, Seq::<Seq<char>>::empty())));
            assert(body_lines(0, Seq::<Seq<char>>::empty()));
            assert(fence_after(0, Seq::<Seq<char>>::empty()) == 0);
        },
        None => {
            let fs = fence_step(st.4, l);
            match st.3 {
                Some(c) => {
                    lemma_fence_push(0, c.1, l);
                    let acc = c.1.push(l);
                    assert forall|i: int| 0 <= i < acc.len() implies one_line(#[trigger] acc[i]) by {
                        if i < c.1.len() {
                            assert(acc[i] == c.1[i]);
                        }
                    }
                },
                None => {
                    if !fs.1 && parse_field(l) is Some {
                        lemma_field_read(l);
                        let f2 = st.0.push(parse_field(l).unwrap());
                        assert forall|i: int| 0 <= i < f2.len() implies field_ok(#[trigger] f2[i]) by {
                            if i < st.0.len() {
                                assert(f2[i] == st.0[i]);
                            }
                        }
                    } else if !is_blank(l) {
                        lemma_fence_push(0, st.1, l);
                        let p2 = st.1.push(l);
                        assert forall|i: int| 0 <= i < p2.len() implies one_line(#[trigger] p2[i]) by {
                            if i < st.1.len() {
                                assert(p2[i] == st.1[i]);
                            }
                        }
                    } else {
                        lemma_blank_fence(st.4, l);
                    }
                },
            }
        },
    }
}

proof fn lemma_lines_ok(ls: Seq<Seq<char>>)
    requires
        forall|i: int| 0 <= i < ls.len() ==> one_line(#[trigger] ls[i]),
    ensures
        parsed_state_ok(parse_lines(ls)),
        parse_lines(ls).4 == fence_after(0, ls),
    decreases ls.len(),
{
    if ls.len() > 0 {
        let w = ls.drop_last();
        assert forall|i: int| 0 <= i < w.len() implies one_line(#[trigger] w[i]) by {
            assert(w[i] == ls[i]);
        }
        lemma_lines_ok(w);
        lemma_step_ok(parse_lines(w), ls.last());
        lemma_fence_push(0, w, ls.last());
        assert(w.push(ls.last()) =~= ls);
    } else {
        let e = Seq::<Seq<char>>::empty();
        assert(preamble_lines(0, e));
        assert(fence_after(0, e) == 0);
    }
}

/// The lines of text without `\r` are single lines.
proof fn lemma_split_lines(s: Seq<char>)
    requires
        no_char(s, '\r'),
    ensures
        forall|i: int| 0 <= i < split(s, '\n').len() ==> one_line(#[trigger] split(s, '\n')[i]),
    decreases s.len(),
{
    if s.len() > 0 {
        let w = s.drop_last();
        lemma_no_char_sub(s, 0, s.len() - 1, '\r');
        assert(w =~= s.subrange(0, s.len() - 1));
        lemma_split_lines(w);
        crate::text::lemma_split_nonempty(w, '\n');
        let r = split(w, '\n');
        if s.last() == '\n' {
            let e = Seq::<char>::empty();
            assert(one_line(e));
            assert forall|i: int| 0 <= i < r.push(e).len() implies one_line(#[trigger] r.push(e)[i]) by {
                if i < r.len() {
                    assert(r.push(e)[i] == r[i]);
                }
            }
        } else {
            let x = r.last().push(s.last());
            assert(s.last() != '\r');
            assert(one_line(x)) by {
                assert(one_line(r[r.len() - 1]));
                assert forall|j: int| 0 <= j < x.len() implies x[j] != '\n' && x[j] != '\r' by {
                    if j < r.last().len() {
                        assert(x[j] == r.last()[j]);
                    }
                }
            }
            let u = r.update(r.len() - 1, x);
            assert forall|i: int| 0 <= i < u.len() implies one_line(#[trigger] u[i]) by {
                if i < r.len() - 1 {
                    assert(u[i] == r[i]);
                }
            }
        }
    }
}

proof fn lemma_first_nonblank_range(ls: Seq<Seq<char>>)
    ensures
        first_nonblank(ls) matches Some(k) ==> 0 <= k < ls.len() && !is_blank(ls[k]),
    decreases ls.len(),
{
    if ls.len() > 0 && is_blank(ls[0]) {
        lemma_first_nonblank_range(ls.drop_first());
        if let Some(k) = first_nonblank(ls.drop_first()) {
            assert(ls[k + 1] == ls.drop_first()[k]);
        }
    }
}

// ---------------------------------------------------------------------------
// Documents read from text
// ---------------------------------------------------------------------------

// ---------------------------------------------------------------------------
// Reading a rendered document whose last part leaves a code fence open
// ---------------------------------------------------------------------------

proof fn lemma_run_preamble_open(st: ParseState, ls: Seq<Seq<char>>)
    requires
        st.3 is None,
        preamble_lines(st.4, ls),
    ensures
        run(st, ls) == (st.0, st.1 + ls, st.2, None::<(Seq<char>, Seq<Seq<char>>)>, fence_after(st.4, ls)),
    decreases ls.len(),
{
    if ls.len() == 0 {
        assert(st.1 + ls =~= st.1);
    } else {
        let l = ls[0];
        let fs = fence_step(st.4, l);
        let st1 = parse_step(st, l);
        assert(st1 == (st.0, st.1.push(l), st.2, None::<(Seq<char>, Seq<Seq<char>>)>, fs.0));
        lemma_run_preamble_open(st1, ls.drop_first());
        assert(st.1.push(l) + ls.drop_first() =~= st.1 + ls);
    }
}

proof fn lemma_run_body_open(st: ParseState, h: Seq<char>, acc: Seq<Seq<char>>, ls: Seq<Seq<char>>)
    requires
        st.3 == Some((h, acc)),
        body_lines(st.4, ls),
    ensures
        run(st, ls) == (st.0, st.1, st.2, Some((h, acc + ls)), fence_after(st.4, ls)),
    decreases ls.len(),
{
    if ls.len() == 0 {
        assert(acc + ls =~= acc);
    } else {
        let l = ls[0];
        let st1 = parse_step(st, l);
        assert(st1 == (st.0, st.1, st.2, Some((h, acc.push(l))), fence_step(st.4, l).0));
        lemma_run_body_open(st1, h, acc.push(l), ls.drop_first());
        assert(acc.push(l) + ls.drop_first() =~= acc + ls);
    }
}

proof fn lemma_body_acc_open(b: Seq<char>)
    requires
        b.len() > 0 ==> body_lines(0, split(b, '\n')),
    ensures
        body_lines(0, body_acc(b)),
{
    lemma_blank_line();
    if b.len() > 0 {
        let acc = body_acc(b);
        assert(acc[0] == Seq::<char>::empty());
        assert(acc.drop_first() =~= split(b, '\n'));
        assert(no_char(Seq::<char>::empty(), '\r'));
    }
}

/// Sections after a closed preamble, the last of which may leave a fence
/// open.
proof fn lemma_run_sections_open(st: ParseState, secs: Seq<TextPair>)
    requires
        st.3 is None,
        st.4 == 0,
        secs.len() > 0,
        forall|i: int| 0 <= i < secs.len() - 1 ==> section_ok(#[trigger] secs[i]),
        section_open_ok(secs.last()),
    ensures
        run(st, tail_lines(secs.map_values(|sec: TextPair| section_text(sec)))) == (
            st.0,
            st.1,
            st.2 + secs.drop_last(),
            Some((secs.last().0, body_acc(secs.last().1))),
            fence_after(0, body_acc(secs.last().1)),
        ),
{
    let e = Seq::<char>::empty();
    let texts = secs.map_values(|sec: TextPair| section_text(sec));
    let last = secs.last();
    let w = secs.drop_last();
    let wt = w.map_values(|sec: TextPair| section_text(sec));
    lemma_section_lines(last);
    lemma_h2_line(last.0);
    lemma_blank_line();
    lemma_body_acc_open(last.1);
    let hl = h2_line(last.0);
    assert(texts.drop_last() =~= wt);
    assert(texts.last() == section_text(last));
    assert(tail_lines(texts) == tail_lines(wt) + seq![e] + split(section_text(last), '\n'));
    assert(tail_lines(texts) =~= tail_lines(wt) + (seq![e] + seq![hl] + body_acc(last.1)));
    lemma_run_concat(st, tail_lines(wt), seq![e] + seq![hl] + body_acc(last.1));
    let s1 = run(st, tail_lines(wt));
    lemma_run_concat(s1, seq![e] + seq![hl], body_acc(last.1));
    lemma_run_concat(s1, seq![e], seq![hl]);
    lemma_run_one(s1, e);
    let s2 = parse_step(s1, e);
    lemma_run_one(s2, hl);
    let s3 = parse_step(s2, hl);
    if w.len() == 0 {
        assert(wt =~= Seq::<Seq<char>>::empty());
        assert(s1 == st);
        assert(s2 == st);
        assert(s3 == (st.0, st.1, st.2, Some((last.0, Seq::<Seq<char>>::empty())), 0u8));
        assert(st.2 + w =~= st.2);
    } else {
        assert forall|i: int| 0 <= i < w.len() implies section_ok(#[trigger] w[i]) by {
            assert(w[i] == secs[i]);
        }
        lemma_run_sections(st, w);
        let prev = w.last();
        assert(prev == secs[w.len() - 1]);
        assert(section_ok(secs[w.len() - 1]));
        assert(s1 == (st.0, st.1, st.2 + w.drop_last(), Some((prev.0, body_acc(prev.1))), 0u8));
        assert(s2 == (st.0, st.1, st.2 + w.drop_last(), Some((prev.0, body_acc(prev.1).push(e))), 0u8));
        lemma_close_body(prev.1);
        assert(close_section(s2.2, s2.3) == s2.2.push(prev));
        assert((st.2 + w.drop_last()).push(prev) =~= st.2 + w) by {
            assert(w.drop_last().push(prev) =~= w);
        }
        assert(s3 == (st.0, st.1, st.2 + w, Some((last.0, Seq::<Seq<char>>::empty())), 0u8));
    }
    lemma_run_body_open(s3, last.0, Seq::<Seq<char>>::empty(), body_acc(last.1));
    assert(Seq::<Seq<char>>::empty() + body_acc(last.1) =~= body_acc(last.1));
}

/// A document whose parts can be told apart in its rendered text, where
/// the last part (the preamble when there are no sections, else the last
/// section) may leave a code fence open.
pub open spec fn doc_reads_back(d: DocView) -> bool {
    &&& one_line(d.0)
    &&& tight(d.0)
    &&& forall|i: int| 0 <= i < d.1.len() ==> field_ok(#[trigger] d.1[i])
    &&& no_char(d.2, '\r')
    &&& (d.2.len() > 0 ==> preamble_lines(0, split(d.2, '\n')))
    &&& (d.2.len() > 0 && d.3.len() > 0 ==> fence_after(0, split(d.2, '\n')) == 0)
    &&& forall|i: int| 0 <= i < d.3.len() - 1 ==> section_ok(#[trigger] d.3[i])
    &&& (d.3.len() > 0 ==> section_open_ok(d.3.last()))
}

/// Reading a rendered document gives the document back, also when its
/// last part leaves a code fence open.
pub proof fn lemma_reads_back(d: DocView)
    requires
        doc_reads_back(d),
    ensures
        parse_doc(doc_text(d)) == Some(d),
{
    let e = Seq::<char>::empty();
    let bs = doc_blocks(d);
    let t = title_line(d.0);
    let fblocks: Seq<Seq<char>> = if d.1.len() > 0 { seq![fields_text(d.1)] } else { Seq::empty() };
    let pblocks: Seq<Seq<char>> = if d.2.len() > 0 { seq![d.2] } else { Seq::empty() };
    let sblocks = d.3.map_values(|sec: TextPair| section_text(sec));
    assert(bs =~= seq![t] + fblocks + pblocks + sblocks);
    assert forall|i: int| #![trigger d.3[i]] 0 <= i < d.3.len() implies one_line(d.3[i].0) && no_char(d.3[i].1, '\r') by {
        if i < d.3.len() - 1 {
            assert(section_ok(d.3[i]));
        } else {
            assert(section_open_ok(d.3.last()));
        }
    }
    lemma_no_cr_text(d);
    lemma_crlf_none(doc_text(d));
    let j = join(bs, seq!['\n', '\n']);
    assert(doc_text(d) =~= j + seq!['\n'] + e);
    lemma_split_concat(j, e, '\n');
    assert(split(e, '\n') =~= seq![e]);
    lemma_split_blocks(bs);
    assert(bs.drop_first() =~= fblocks + pblocks + sblocks);
    assert(bs[0] == t);
    assert(no_char(t, '\n')) by {
        assert forall|i: int| 0 <= i < t.len() implies t[i] != '\n' by {
            if d.0.len() > 0 && i >= 2 {
                assert(t[i] == d.0[i - 2]);
            }
        }
    }
    lemma_split_single(t, '\n');
    lemma_tail_concat(fblocks + pblocks, sblocks);
    lemma_tail_concat(fblocks, pblocks);
    let ls = split(doc_text(d), '\n');
    let rest = tail_lines(fblocks) + tail_lines(pblocks) + tail_lines(sblocks) + seq![e];
    assert(ls =~= seq![t] + rest);
    lemma_title_line(d.0);
    assert(ls[0] == t);
    assert(first_nonblank(ls) == Some(0int));
    assert(ls.subrange(1, ls.len() as int) =~= rest);
    lemma_parse_lines_run(rest);
    let s0 = start_state();
    lemma_run_concat(s0, tail_lines(fblocks) + tail_lines(pblocks) + tail_lines(sblocks), seq![e]);
    lemma_run_concat(s0, tail_lines(fblocks) + tail_lines(pblocks), tail_lines(sblocks));
    lemma_run_concat(s0, tail_lines(fblocks), tail_lines(pblocks));
    let s1 = run(s0, tail_lines(fblocks));
    lemma_blank_line();
    if d.1.len() > 0 {
        lemma_tail_single(fields_text(d.1));
        let fl = d.1.map_values(|f: TextPair| field_line(f));
        assert forall|i: int| 0 <= i < fl.len() implies no_char(#[trigger] fl[i], '\n') by {
            lemma_field_line(d.1[i]);
        }
        lemma_split_join(fl, '\n');
        lemma_run_concat(s0, seq![e], fl);
        lemma_run_one(s0, e);
        lemma_run_fields(s0, d.1);
        assert(Seq::<TextPair>::empty() + d.1 =~= d.1);
    } else {
        assert(tail_lines(fblocks) =~= Seq::<Seq<char>>::empty());
        assert(d.1 =~= Seq::<TextPair>::empty());
    }
    assert(s1 == (d.1, Seq::<Seq<char>>::empty(), Seq::<TextPair>::empty(), None::<(Seq<char>, Seq<Seq<char>>)>, 0u8));
    let s2 = run(s1, tail_lines(pblocks));
    let pl: Seq<Seq<char>> = if d.2.len() > 0 { split(d.2, '\n') } else { Seq::empty() };
    let g: u8 = if d.2.len() > 0 { fence_after(0, split(d.2, '\n')) } else { 0 };
    if d.2.len() > 0 {
        lemma_tail_single(d.2);
        lemma_run_concat(s1, seq![e], split(d.2, '\n'));
        lemma_run_one(s1, e);
        lemma_run_preamble_open(s1, split(d.2, '\n'));
        assert(Seq::<Seq<char>>::empty() + split(d.2, '\n') =~= split(d.2, '\n'));
        crate::model::md_law::lemma_join_split(d.2, '\n');
    } else {
        assert(tail_lines(pblocks) =~= Seq::<Seq<char>>::empty());
        assert(d.2 =~= e);
    }
    assert(s2 == (d.1, pl, Seq::<TextPair>::empty(), None::<(Seq<char>, Seq<Seq<char>>)>, g));
    assert(join(pl, seq!['\n']) == d.2);
    let s3 = run(s2, tail_lines(sblocks));
    let s4 = run(s3, seq![e]);
    lemma_run_one(s3, e);
    if d.3.len() > 0 {
        lemma_run_sections_open(s2, d.3);
        assert(Seq::<TextPair>::empty() + d.3.drop_last() =~= d.3.drop_last());
        let last = d.3.last();
        lemma_close_body(last.1);
        lemma_blank_fence(fence_after(0, body_acc(last.1)), e);
        assert(s4.3 == Some((last.0, body_acc(last.1).push(e))));
        assert(close_section(s4.2, s4.3) =~= d.3.drop_last().push(last));
        assert(d.3.drop_last().push(last) =~= d.3);
    } else {
        assert(sblocks =~= Seq::<Seq<char>>::empty());
        assert(tail_lines(sblocks) =~= Seq::<Seq<char>>::empty());
        assert(s3 == s2);
        lemma_blank_fence(g, e);
        assert(s4.2 == s2.2 && s4.3 == s2.3);
        assert(close_section(s4.2, s4.3) =~= d.3);
    }
    assert(parse_lines(rest) == s4);
}

// ---------------------------------------------------------------------------
// Documents read from text
// ---------------------------------------------------------------------------

/// A document read from text with no `\r` outside line ends can have its
/// parts told apart when rendered.
pub proof fn lemma_parsed_reads_back(s: Seq<char>)
    requires
        parse_doc(s) is Some,
        no_char(crlf_to_lf(s), '\r'),
    ensures
        doc_reads_back(parse_doc(s).unwrap()),
{
    let ls = split(crlf_to_lf(s), '\n');
    lemma_split_lines(crlf_to_lf(s));
    lemma_first_nonblank_range(ls);
    let k = first_nonblank(ls).unwrap();
    lemma_title_read(ls[k]);
    let rest = ls.subrange(k + 1, ls.len() as int);
    assert forall|i: int| 0 <= i < rest.len() implies one_line(#[trigger] rest[i]) by {
        assert(rest[i] == ls[k + 1 + i]);
    }
    lemma_lines_ok(rest);
    let st = parse_lines(rest);
    let d = parse_doc(s).unwrap();
    assert(d == (parse_title(ls[k]).unwrap(), st.0, join(st.1, seq!['\n']), close_section(st.2, st.3)));
    assert(no_char(seq!['\n'], '\r'));
    assert forall|i: int| 0 <= i < st.1.len() implies no_char(#[trigger] st.1[i], '\r') by {
        assert(one_line(st.1[i]));
    }
    lemma_no_char_join(st.1, seq!['\n'], '\r');
    if d.2.len() > 0 {
        assert(st.1.len() > 0);
        assert forall|i: int| 0 <= i < st.1.len() implies no_char(#[trigger] st.1[i], '\n') by {
            assert(one_line(st.1[i]));
        }
        lemma_split_join(st.1, '\n');
    }
    match st.3 {
        Some(c) => {
            lemma_trimmed_section(c.0, c.1);
            let secs = st.2.push((c.0, trim_blank_lines(c.1)));
            assert(d.3 == secs);
            assert forall|i: int| 0 <= i < secs.len() - 1 implies section_ok(#[trigger] secs[i]) by {
                assert(secs[i] == st.2[i]);
            }
            assert(secs.last() == (c.0, trim_blank_lines(c.1)));
        },
        None => {
            assert(d.3 == st.2);
            assert(d.3.len() == 0);
        },
    }
}

/// Rendering a document read from text, and reading the result, gives the
/// same document: blank lines and spacing are normalized by the first read
/// and nothing else changes. Stated for text with no `\r` other than in
/// `\r\n` line ends; a line ending in a lone `\r` loses it on the second
/// read.
pub proof fn lemma_parsed_round_trip(s: Seq<char>)
    requires
        parse_doc(s) is Some,
        no_char(crlf_to_lf(s), '\r'),
    ensures
        parse_doc(doc_text(parse_doc(s).unwrap())) == parse_doc(s),
{
    lemma_parsed_reads_back(s);
    lemma_reads_back(parse_doc(s).unwrap());
}

} // verus!
