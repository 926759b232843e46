//! The section body of a report is its full rendering without the title,
//! with every heading one level deeper.

use vstd::prelude::*;

use super::report::{finding_line, group_body, group_lines, groups_text, Certainty, FindingView};
use crate::model::md::{
    demote_line, demote_lines, demoted, fence_marker, fence_step, leading_hashes,
    lemma_leading_hashes, min_int,
};
use crate::model::md_law::{
    lemma_no_char_concat, lemma_split_blocks, lemma_split_concat, lemma_split_join,
    lemma_split_single, lemma_tail_concat, lemma_tail_single, no_char,
};
use crate::text::{is_ws, join, split, trim_start};

verus! {

/// A finding whose topic, text and source are single lines.
pub open spec fn finding_single_line(f: FindingView) -> bool {
    &&& no_char(f.1, '\n')
    &&& no_char(f.2, '\n')
    &&& (f.3 matches Some(s) ==> no_char(s, '\n'))
}

/// A line that starts like a list item: `-` first.
spec fn item_line(l: Seq<char>) -> bool {
    l.len() > 0 && l[0] == '-' && no_char(l, '\n')
}

proof fn lemma_finding_line(f: FindingView)
    requires
        finding_single_line(f),
    ensures
        item_line(finding_line(f)),
{
    reveal_strlit("- ");
    reveal_strlit(": ");
    reveal_strlit(" (source: ");
    reveal_strlit(")");
    let a = "- "@ + f.1;
    lemma_no_char_concat("- "@, f.1, '\n');
    lemma_no_char_concat(a, ": "@, '\n');
    lemma_no_char_concat(a + ": "@, f.2, '\n');
    match f.3 {
        Some(src) => {
            let b = a + ": "@ + f.2;
            lemma_no_char_concat(b, " (source: "@, '\n');
            lemma_no_char_concat(b + " (source: "@, src, '\n');
            lemma_no_char_concat(b + " (source: "@ + src, ")"@, '\n');
            assert(finding_line(f)[0] == '-');
        },
        None => {
            assert(finding_line(f)[0] == '-');
        },
    }
}

proof fn lemma_group_lines(fs: Seq<FindingView>, c: Certainty)
    requires
        forall|i: int| 0 <= i < fs.len() ==> finding_single_line(#[trigger] fs[i]),
    ensures
        forall|i: int| 0 <= i < group_lines(fs, c).len() ==> item_line(#[trigger] group_lines(fs, c)[i]),
    decreases fs.len(),
{
    if fs.len() > 0 {
        let w = fs.drop_last();
        assert forall|i: int| 0 <= i < w.len() implies finding_single_line(#[trigger] w[i]) by {
            assert(w[i] == fs[i]);
        }
        lemma_group_lines(w, c);
        let r = group_lines(w, c);
        if fs.last().0 == c {
            lemma_finding_line(fs.last());
            assert(group_lines(fs, c) == r.push(finding_line(fs.last())));
            assert forall|i: int| 0 <= i < r.push(finding_line(fs.last())).len() implies item_line(
                #[trigger] r.push(finding_line(fs.last()))[i],
            ) by {
                if i < r.len() {
                    assert(r.push(finding_line(fs.last()))[i] == r[i]);
                }
            }
        } else {
            assert(group_lines(fs, c) == r);
        }
    }
}

/// The lines of a group's body.
spec fn body_lines_of(fs: Seq<FindingView>, c: Certainty) -> Seq<Seq<char>> {
    if group_lines(fs, c).len() == 0 {
        seq!["- _None_"@]
    } else {
        group_lines(fs, c)
    }
}

proof fn lemma_body_lines_of(fs: Seq<FindingView>, c: Certainty)
    requires
        forall|i: int| 0 <= i < fs.len() ==> finding_single_line(#[trigger] fs[i]),
    ensures
        split(group_body(fs, c), '\n') == body_lines_of(fs, c),
        forall|i: int| 0 <= i < body_lines_of(fs, c).len() ==> item_line(#[trigger] body_lines_of(fs, c)[i]),
{
    lemma_group_lines(fs, c);
    if group_lines(fs, c).len() == 0 {
        reveal_strlit("- _None_");
        let n = "- _None_"@;
        assert(item_line(n));
        lemma_split_single(n, '\n');
    } else {
        let g = group_lines(fs, c);
        assert forall|i: int| 0 <= i < g.len() implies no_char(#[trigger] g[i], '\n') by {
            assert(item_line(g[i]));
        }
        lemma_split_join(g, '\n');
    }
}

/// A group's body between the blank lines around it.
spec fn gap(fs: Seq<FindingView>, c: Certainty) -> Seq<Seq<char>> {
    seq![Seq::<char>::empty()] + body_lines_of(fs, c) + seq![Seq::<char>::empty()]
}

/// The lines of the three groups under `h` headings.
spec fn report_lines(fs: Seq<FindingView>, h: Seq<char>) -> Seq<Seq<char>> {
    seq![h + " Confirmed"@] + gap(fs, Certainty::Confirmed) + seq![h + " Inferred"@] + gap(
        fs,
        Certainty::Inferred,
    ) + seq![h + " Unknown"@] + gap(fs, Certainty::Unknown)
}

proof fn lemma_heading_single(h: Seq<char>, t: Seq<char>)
    requires
        no_char(h, '\n'),
        no_char(t, '\n'),
    ensures
        split(h + t, '\n') == seq![h + t],
{
    lemma_no_char_concat(h, t, '\n');
    lemma_split_single(h + t, '\n');
}

proof fn lemma_report_lines(fs: Seq<FindingView>, h: Seq<char>)
    requires
        no_char(h, '\n'),
        forall|i: int| 0 <= i < fs.len() ==> finding_single_line(#[trigger] fs[i]),
    ensures
        split(groups_text(fs, h), '\n') == report_lines(fs, h),
{
    reveal_strlit("\n\n");
    reveal_strlit(" Confirmed");
    reveal_strlit(" Inferred");
    reveal_strlit(" Unknown");
    let e = Seq::<char>::empty();
    let hc = h + " Confirmed"@;
    let hi = h + " Inferred"@;
    let hu = h + " Unknown"@;
    let bc = group_body(fs, Certainty::Confirmed);
    let bi = group_body(fs, Certainty::Inferred);
    let bu = group_body(fs, Certainty::Unknown);
    let bs = seq![hc, bc, hi, bi, hu, bu];
    assert("\n\n"@ =~= seq!['\n', '\n']);
    let j = join(bs, seq!['\n', '\n']);
    assert(groups_text(fs, h) =~= j + seq!['\n'] + e);
    lemma_split_concat(j, e, '\n');
    assert(split(e, '\n') =~= seq![e]);
    lemma_split_blocks(bs);
    lemma_heading_single(h, " Confirmed"@);
    lemma_heading_single(h, " Inferred"@);
    lemma_heading_single(h, " Unknown"@);
    lemma_body_lines_of(fs, Certainty::Confirmed);
    lemma_body_lines_of(fs, Certainty::Inferred);
    lemma_body_lines_of(fs, Certainty::Unknown);
    assert(bs[0] == hc);
    assert(bs.drop_first() =~= seq![bc] + seq![hi] + seq![bi] + seq![hu] + seq![bu]);
    lemma_tail_concat(seq![bc] + seq![hi] + seq![bi] + seq![hu], seq![bu]);
    lemma_tail_concat(seq![bc] + seq![hi] + seq![bi], seq![hu]);
    lemma_tail_concat(seq![bc] + seq![hi], seq![bi]);
    lemma_tail_concat(seq![bc], seq![hi]);
    lemma_tail_single(bc);
    lemma_tail_single(hi);
    lemma_tail_single(bi);
    lemma_tail_single(hu);
    lemma_tail_single(bu);
    assert(split(groups_text(fs, h), '\n') =~= report_lines(fs, h));
}

// ---------------------------------------------------------------------------
// Demoting the lines
// ---------------------------------------------------------------------------

spec fn plain_line(l: Seq<char>) -> bool {
    l.len() == 0 || item_line(l)
}

proof fn lemma_plain_line(l: Seq<char>, lv: nat)
    requires
        plain_line(l),
    ensures
        fence_marker(l) == 0,
        demote_line(l, lv) == l,
{
    if l.len() > 0 {
        assert(!is_ws('-'));
        assert(trim_start(l) == l);
        if l.len() >= 3 {
            assert(l.subrange(0, 3)[0] == '-');
        }
    }
    lemma_leading_hashes(l, 0);
}

proof fn lemma_demote_plain(ls: Seq<Seq<char>>, lv: nat)
    requires
        forall|i: int| 0 <= i < ls.len() ==> plain_line(#[trigger] ls[i]),
    ensures
        demote_lines(ls, lv) == (ls, 0u8),
    decreases ls.len(),
{
    if ls.len() > 0 {
        let w = ls.drop_last();
        assert forall|i: int| 0 <= i < w.len() implies plain_line(#[trigger] w[i]) by {
            assert(w[i] == ls[i]);
        }
        lemma_demote_plain(w, lv);
        assert(plain_line(ls[ls.len() - 1]));
        lemma_plain_line(ls.last(), lv);
        assert(fence_step(0, ls.last()).0 == 0);
        assert(w.push(ls.last()) =~= ls);
    } else {
        assert(ls =~= Seq::<Seq<char>>::empty());
    }
}

proof fn lemma_demote_concat(a: Seq<Seq<char>>, b: Seq<Seq<char>>, lv: nat)
    requires
        demote_lines(a, lv).1 == 0,
    ensures
        demote_lines(a + b, lv) == (demote_lines(a, lv).0 + demote_lines(b, lv).0, demote_lines(b, lv).1),
    decreases b.len(),
{
    if b.len() == 0 {
        assert(a + b =~= a);
        assert(demote_lines(a, lv).0 + demote_lines(b, lv).0 =~= demote_lines(a, lv).0);
    } else {
        assert((a + b).drop_last() =~= a + b.drop_last());
        assert((a + b).last() == b.last());
        lemma_demote_concat(a, b.drop_last(), lv);
        let p = demote_lines(b.drop_last(), lv);
        let f = fence_step(p.1, b.last()).0;
        let out = if p.1 != 0 || f != 0 { b.last() } else { demote_line(b.last(), lv) };
        assert((demote_lines(a, lv).0 + p.0).push(out) =~= demote_lines(a, lv).0 + p.0.push(out));
    }
}

proof fn lemma_demote_heading(t: Seq<char>)
    requires
        t.len() > 0,
        t[0] == ' ',
    ensures
        demote_lines(seq!["##"@ + t], 1) == (seq!["###"@ + t], 0u8),
{
    reveal_strlit("##");
    reveal_strlit("###");
    let l = "##"@ + t;
    lemma_leading_hashes(l, 2);
    let rest = l.subrange(2, l.len() as int);
    assert(rest =~= t);
    assert(Seq::new(3, |_i: int| '#') + rest =~= "###"@ + t);
    assert(!is_ws('#'));
    assert(trim_start(l) == l);
    if l.len() >= 3 {
        assert(l.subrange(0, 3)[0] == '#');
    }
    assert(fence_marker(l) == 0);
    let one = seq![l];
    assert(one.drop_last() =~= Seq::<Seq<char>>::empty());
    assert(one.last() == l);
    assert(leading_hashes(l) == 2);
    assert(l[2] == ' ');
    assert(min_int(3, 6) == 3);
    assert(demote_line(l, 1) == Seq::new(3, |_i: int| '#') + rest);
    assert(demote_line(l, 1) == "###"@ + t);
    assert(fence_step(0, l) == (0u8, false));
    assert(demote_lines(Seq::<Seq<char>>::empty(), 1) == (Seq::<Seq<char>>::empty(), 0u8));
    assert(demote_lines(one, 1) == (Seq::<Seq<char>>::empty().push(demote_line(l, 1)), 0u8));
    assert(Seq::<Seq<char>>::empty().push(demote_line(l, 1)) =~= seq!["###"@ + t]);
}

proof fn lemma_gap_plain(fs: Seq<FindingView>, c: Certainty)
    requires
        forall|i: int| 0 <= i < fs.len() ==> finding_single_line(#[trigger] fs[i]),
    ensures
        demote_lines(gap(fs, c), 1) == (gap(fs, c), 0u8),
{
    lemma_body_lines_of(fs, c);
    let g = gap(fs, c);
    let b = body_lines_of(fs, c);
    assert forall|i: int| 0 <= i < g.len() implies plain_line(#[trigger] g[i]) by {
        if 1 <= i < g.len() - 1 {
            assert(g[i] == b[i - 1]);
        }
    }
    lemma_demote_plain(g, 1);
}

/// The section body of a report is its rendering without the title line
/// and the blank line after it, with every heading one level deeper
/// (`demote_headings(.., 1)`), when no finding holds a line break.
pub proof fn lemma_section_body_demoted(fs: Seq<FindingView>)
    requires
        forall|i: int| 0 <= i < fs.len() ==> finding_single_line(#[trigger] fs[i]),
    ensures
        groups_text(fs, "###"@) == demoted(groups_text(fs, "##"@), 1),
{
    reveal_strlit("##");
    reveal_strlit("###");
    reveal_strlit(" Confirmed");
    reveal_strlit(" Inferred");
    reveal_strlit(" Unknown");
    assert(no_char("##"@, '\n'));
    assert(no_char("###"@, '\n'));
    lemma_report_lines(fs, "##"@);
    lemma_report_lines(fs, "###"@);
    let p1 = seq!["##"@ + " Confirmed"@];
    let p3 = seq!["##"@ + " Inferred"@];
    let p5 = seq!["##"@ + " Unknown"@];
    let g1 = gap(fs, Certainty::Confirmed);
    let g3 = gap(fs, Certainty::Inferred);
    let g5 = gap(fs, Certainty::Unknown);
    lemma_demote_heading(" Confirmed"@);
    lemma_demote_heading(" Inferred"@);
    lemma_demote_heading(" Unknown"@);
    lemma_gap_plain(fs, Certainty::Confirmed);
    lemma_gap_plain(fs, Certainty::Inferred);
    lemma_gap_plain(fs, Certainty::Unknown);
    lemma_demote_concat(p1, g1, 1);
    lemma_demote_concat(p1 + g1, p3, 1);
    lemma_demote_concat(p1 + g1 + p3, g3, 1);
    lemma_demote_concat(p1 + g1 + p3 + g3, p5, 1);
    lemma_demote_concat(p1 + g1 + p3 + g3 + p5, g5, 1);
    assert(report_lines(fs, "##"@) == p1 + g1 + p3 + g3 + p5 + g5);
    assert(demote_lines(report_lines(fs, "##"@), 1).0 =~= report_lines(fs, "###"@));
    crate::model::md_law::lemma_join_split(groups_text(fs, "###"@), '\n');
}

} // verus!
