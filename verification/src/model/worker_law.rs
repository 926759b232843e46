//! Reading a written worker file gives the worker back.
//!
//! A worker round-trips when its parts can be told apart in its file: a
//! name, branch and commit on one line without surrounding whitespace, list
//! items likewise and not empty, text sections that read back as
//! themselves, no unknown section under a known heading, and an ID and a
//! time that `uuid` and chrono write and read back.

use vstd::prelude::*;

use super::md::{
    bullet_item, bullet_items, doc_text, fence_marker, fence_step, field_line, fields_of_lines,
    fields_text, has_bullet, list_of, list_text, parse_h2, valid_key, TextPair,
};
use super::md_law::{
    body_ok, body_reads_back, doc_wf, field_ok, lemma_field_line, lemma_md_round_trip,
    lemma_split_join, no_char, one_line, section_ok, tight,
};
use super::decision::nonblank_field;
use super::worker::{
    absorb_repo, absorb_section, absorb_sections, fresh_worker, or_empty, repo_value,
    worker_doc, worker_parse, worker_status_from_text, worker_status_name, WorkerStatus,
    WorkerView,
};
use crate::clock::{
    chrono_rfc3339_parse, rfc3339_char, rfc3339_of, rfc3339_stable, timestamp_result, Timestamp,
};
use crate::ids::{
    hex_digit, hex_digits, lemma_hex_digits_len, reads_as, uuid_hyphenated, uuid_simple,
};
use crate::text::{
    eq_ignore_ascii_case, is_blank, is_lower, is_ws, join, lines, split, strip_cr,
    trim, trim_end, trim_start,
};

verus! {

// ---------------------------------------------------------------------------
// Plain text
// ---------------------------------------------------------------------------

/// A character that is not whitespace and not a line break.
pub open spec fn plain_char(c: char) -> bool {
    !is_ws(c) && c != '\n' && c != '\r'
}

/// Text made of plain characters only.
pub open spec fn plain(s: Seq<char>) -> bool {
    forall|i: int| 0 <= i < s.len() ==> plain_char(#[trigger] s[i])
}

proof fn lemma_plain(s: Seq<char>)
    requires
        plain(s),
    ensures
        one_line(s),
        tight(s),
        trim(s) == s,
{
    assert forall|i: int| 0 <= i < s.len() implies s[i] != '\n' by {
        assert(plain_char(s[i]));
    }
    assert forall|i: int| 0 <= i < s.len() implies s[i] != '\r' by {
        assert(plain_char(s[i]));
    }
    if s.len() > 0 {
        assert(plain_char(s[0]));
        assert(plain_char(s[s.len() - 1]));
    }
}

proof fn lemma_hex_digits_plain(v: nat, n: nat)
    ensures
        plain(hex_digits(v, n)),
    decreases n,
{
    if n > 0 {
        lemma_hex_digits_plain(v / 16, (n - 1) as nat);
        let k = (v % 16) as int;
        assert(plain_char(hex_digit(k))) by {
            if k < 10 {
                assert(hex_digit(k) == (48 + k) as char);
            } else {
                assert(hex_digit(k) == (87 + k) as char);
            }
        }
        let h = hex_digits(v, n);
        let p = hex_digits(v / 16, (n - 1) as nat);
        assert(h == p.push(hex_digit(k)));
        assert forall|i: int| 0 <= i < h.len() implies plain_char(#[trigger] h[i]) by {
            if i < p.len() {
                assert(h[i] == p[i]);
            }
        }
    }
}

/// The hyphenated form of a UUID is plain text.
proof fn lemma_uuid_plain(id: u128)
    ensures
        plain(uuid_hyphenated(id)),
        uuid_hyphenated(id).len() > 0,
{
    let h = uuid_simple(id);
    lemma_hex_digits_plain(id as nat, 32);
    lemma_hex_digits_len(id as nat, 32);
    let u = uuid_hyphenated(id);
    assert(u.len() == 36);
    assert forall|i: int| 0 <= i < u.len() implies plain_char(#[trigger] u[i]) by {
        if i < 8 {
            assert(u[i] == h[i]);
        } else if i == 8 || i == 13 || i == 18 || i == 23 {
        } else if i < 13 {
            assert(u[i] == h[i - 1]);
        } else if i < 18 {
            assert(u[i] == h[i - 2]);
        } else if i < 23 {
            assert(u[i] == h[i - 3]);
        } else {
            assert(u[i] == h[i - 4]);
        }
    }
}

proof fn lemma_status(s: WorkerStatus)
    ensures
        worker_status_from_text(worker_status_name(s)) == Some(s),
        plain(worker_status_name(s)),
        worker_status_name(s).len() > 0,
{
    reveal_strlit("working");
    reveal_strlit("blocked");
    reveal_strlit("done");
    reveal_strlit("abandoned");
    let n = worker_status_name(s);
    assert forall|k: int| 0 <= k < n.len() implies is_lower(#[trigger] n[k]) by {}
    assert forall|k: int| 0 <= k < n.len() implies plain_char(#[trigger] n[k]) by {
        assert(is_lower(n[k]));
    }
    lemma_plain(n);
    assert(eq_ignore_ascii_case(n, n));
    let w = "working"@;
    let b = "blocked"@;
    let d = "done"@;
    if n != w {
        assert(crate::text::ascii_lower(n[0]) != crate::text::ascii_lower(w[0]));
    }
    if n != b {
        assert(n.len() != b.len() || crate::text::ascii_lower(n[0]) != crate::text::ascii_lower(b[0]));
    }
    if n != d {
        assert(n.len() != d.len() || crate::text::ascii_lower(n[0]) != crate::text::ascii_lower(d[0]));
    }
}

// ---------------------------------------------------------------------------
// Lines and lists
// ---------------------------------------------------------------------------

/// Lines joined with `\n` are read back as the same lines.
proof fn lemma_lines_join(xs: Seq<Seq<char>>)
    requires
        xs.len() > 0,
        forall|i: int| 0 <= i < xs.len() ==> one_line(#[trigger] xs[i]),
        xs.last().len() > 0,
    ensures
        lines(join(xs, seq!['\n'])) == xs,
        split(join(xs, seq!['\n']), '\n') == xs,
{
    assert forall|i: int| 0 <= i < xs.len() implies no_char(#[trigger] xs[i], '\n') by {
        assert(one_line(xs[i]));
    }
    lemma_split_join(xs, '\n');
    let parts = split(join(xs, seq!['\n']), '\n');
    let n = parts.len() as int;
    let body = Seq::new((n - 1) as nat, |i: int| strip_cr(parts[i]));
    assert forall|i: int| 0 <= i < n - 1 implies body[i] == xs[i] by {
        assert(one_line(xs[i]));
        if xs[i].len() > 0 {
            assert(xs[i].last() != '\r');
        }
    }
    assert(body.push(parts[n - 1]) =~= xs);
}

/// An item written to a list: not empty, one line, no surrounding whitespace.
pub open spec fn item_ok(it: Seq<char>) -> bool {
    it.len() > 0 && tight(it) && one_line(it)
}

pub open spec fn items_ok(items: Seq<Seq<char>>) -> bool {
    forall|i: int| 0 <= i < items.len() ==> item_ok(#[trigger] items[i])
}

proof fn lemma_bullet_line(it: Seq<char>)
    requires
        item_ok(it),
    ensures
        bullet_item(seq!['-', ' '] + it) == Some(it),
        one_line(seq!['-', ' '] + it),
        !is_blank(seq!['-', ' '] + it),
        parse_h2(seq!['-', ' '] + it) is None,
        fence_step(0, seq!['-', ' '] + it) == (0u8, false),
        (seq!['-', ' '] + it).len() > 0,
{
    let l = seq!['-', ' '] + it;
    assert(!is_ws('-'));
    assert(trim_start(l) == l);
    assert(l.subrange(0, 2) =~= seq!['-', ' ']);
    let rest = l.subrange(2, l.len() as int);
    assert(rest =~= it);
    assert(no_char(l, '\n')) by {
        assert forall|i: int| 0 <= i < l.len() implies l[i] != '\n' by {
            if i >= 2 {
                assert(l[i] == it[i - 2]);
            }
        }
    }
    assert(no_char(l, '\r')) by {
        assert forall|i: int| 0 <= i < l.len() implies l[i] != '\r' by {
            if i >= 2 {
                assert(l[i] == it[i - 2]);
            }
        }
    }
    assert(l.last() == it.last());
    assert(trim_end(l) != seq!['#', '#']) by {
        if trim_end(l) == seq!['#', '#'] {
            assert(trim_end(l) == l);
        }
    }
    assert(!crate::text::starts_with(l, seq!['#', '#', ' ']));
    assert(!crate::text::starts_with(l, seq!['`', '`', '`']));
    assert(!crate::text::starts_with(l, seq!['~', '~', '~']));
    assert(fence_marker(l) == 0);
}

proof fn lemma_body_lines_ok(ls: Seq<Seq<char>>)
    requires
        forall|i: int| 0 <= i < ls.len() ==> no_char(#[trigger] ls[i], '\r') && parse_h2(ls[i]) is None
            && fence_step(0, ls[i]) == (0u8, false),
    ensures
        body_ok(0, ls),
    decreases ls.len(),
{
    if ls.len() > 0 {
        let rest = ls.drop_first();
        assert forall|i: int| 0 <= i < rest.len() implies no_char(#[trigger] rest[i], '\r') && parse_h2(
            rest[i],
        ) is None && fence_step(0, rest[i]) == (0u8, false) by {
            assert(rest[i] == ls[i + 1]);
        }
        lemma_body_lines_ok(rest);
        assert(no_char(ls[0], '\r') && parse_h2(ls[0]) is None && fence_step(0, ls[0]) == (0u8, false));
    }
}

proof fn lemma_bullet_items(items: Seq<Seq<char>>)
    requires
        items_ok(items),
    ensures
        bullet_items(items.map_values(|it: Seq<char>| seq!['-', ' '] + it)) == items,
    decreases items.len(),
{
    let ls = items.map_values(|it: Seq<char>| seq!['-', ' '] + it);
    if items.len() > 0 {
        let init = items.drop_last();
        assert forall|i: int| 0 <= i < init.len() implies item_ok(#[trigger] init[i]) by {
            assert(init[i] == items[i]);
        }
        lemma_bullet_items(init);
        assert(ls.drop_last() =~= init.map_values(|it: Seq<char>| seq!['-', ' '] + it));
        assert(item_ok(items[items.len() - 1]));
        lemma_bullet_line(items.last());
        assert(ls.last() == seq!['-', ' '] + items.last());
        assert(init.push(items.last()) =~= items);
    } else {
        assert(ls =~= Seq::<Seq<char>>::empty());
    }
}

/// A list of items is written as `- item` lines and read back as itself.
pub proof fn lemma_list_round_trip(items: Seq<Seq<char>>)
    requires
        items_ok(items),
    ensures
        list_of(list_text(items)) == items,
        body_reads_back(list_text(items)),
{
    let ls = items.map_values(|it: Seq<char>| seq!['-', ' '] + it);
    let text = list_text(items);
    assert(text == join(ls, seq!['\n']));
    if items.len() == 0 {
        assert(ls =~= Seq::<Seq<char>>::empty());
        assert(text =~= Seq::<char>::empty());
        assert(split(text, '\n') =~= seq![Seq::<char>::empty()]);
        assert(lines(text) =~= Seq::<Seq<char>>::empty());
        assert(!has_bullet(lines(text)));
        assert(trim(text) =~= Seq::<char>::empty());
        assert(list_of(text) =~= items);
    } else {
        assert forall|i: int| 0 <= i < ls.len() implies one_line(#[trigger] ls[i]) && no_char(ls[i], '\r')
            && parse_h2(ls[i]) is None && fence_step(0, ls[i]) == (0u8, false) && !is_blank(ls[i]) by {
            assert(item_ok(items[i]));
            lemma_bullet_line(items[i]);
        }
        assert(item_ok(items[items.len() - 1]));
        lemma_bullet_line(items.last());
        lemma_lines_join(ls);
        assert(bullet_item(ls[0]) is Some) by {
            assert(item_ok(items[0]));
            lemma_bullet_line(items[0]);
        }
        assert(has_bullet(lines(text)));
        lemma_bullet_items(items);
        // The body reads back.
        assert forall|i: int| 0 <= i < text.len() implies text[i] != '\r' by {
            super::md_law::lemma_no_char_join(ls, seq!['\n'], '\r');
        }
        lemma_body_lines_ok(ls);
    }
}

// ---------------------------------------------------------------------------
// Repository section
// ---------------------------------------------------------------------------

/// The value written for an optional `Branch`/`Commit`.
pub open spec fn opt_ok(o: Option<Seq<char>>) -> bool {
    o matches Some(v) ==> item_ok(v)
}

proof fn lemma_repo_keys()
    ensures
        valid_key("Branch"@),
        valid_key("Commit"@),
        "Branch"@ != "Commit"@,
{
    reveal_strlit("Branch");
    reveal_strlit("Commit");
    assert("Branch"@[0] != "Commit"@[0]);
    let b = "Branch"@;
    let c = "Commit"@;
    assert forall|i: int| 0 <= i < b.len() implies super::md::is_key_char(#[trigger] b[i]) by {}
    assert forall|i: int| 0 <= i < c.len() implies super::md::is_key_char(#[trigger] c[i]) by {}
}

proof fn lemma_repo_value(o: Option<Seq<char>>)
    requires
        opt_ok(o),
    ensures
        repo_value(or_empty(o)) == o,
        field_ok(("Branch"@, or_empty(o))) && field_ok(("Commit"@, or_empty(o))),
{
    lemma_repo_keys();
    match o {
        Some(v) => {
            assert(item_ok(v));
            assert(trim(v) == v);
        },
        None => {
            assert(trim(Seq::<char>::empty()) =~= Seq::<char>::empty());
        },
    }
}

/// The `Repository` body reads back as the branch and commit.
proof fn lemma_repository(w: WorkerView, branch: Option<Seq<char>>, commit: Option<Seq<char>>)
    requires
        opt_ok(branch),
        opt_ok(commit),
    ensures
        absorb_repo(
            w,
            fields_of_lines(lines(fields_text(seq![("Branch"@, or_empty(branch)), ("Commit"@, or_empty(commit))]))),
        ) == (WorkerView { branch, commit, ..w }),
        body_reads_back(fields_text(seq![("Branch"@, or_empty(branch)), ("Commit"@, or_empty(commit))])),
{
    lemma_repo_keys();
    lemma_repo_value(branch);
    lemma_repo_value(commit);
    let fb = ("Branch"@, or_empty(branch));
    let fc = ("Commit"@, or_empty(commit));
    let fs = seq![fb, fc];
    lemma_field_line(fb);
    lemma_field_line(fc);
    let ls = fs.map_values(|f: TextPair| field_line(f));
    assert(ls =~= seq![field_line(fb), field_line(fc)]);
    assert(field_line(fc).len() > 0);
    assert forall|i: int| 0 <= i < ls.len() implies one_line(#[trigger] ls[i]) by {
        if i == 0 {
            assert(ls[i] == field_line(fb));
        } else {
            assert(ls[i] == field_line(fc));
        }
    }
    lemma_lines_join(ls);
    let text = fields_text(fs);
    assert(lines(text) == ls);
    assert(ls.drop_last() =~= seq![field_line(fb)]);
    assert(seq![field_line(fb)].drop_last() =~= Seq::<Seq<char>>::empty());
    assert(fields_of_lines(seq![field_line(fb)]) == seq![fb]) by {
        assert(fields_of_lines(Seq::<Seq<char>>::empty()) == Seq::<TextPair>::empty());
        assert(seq![field_line(fb)].last() == field_line(fb));
        assert(Seq::<TextPair>::empty().push(fb) =~= seq![fb]);
    }
    assert(ls.last() == field_line(fc));
    assert(fields_of_lines(ls) == seq![fb].push(fc));
    assert(seq![fb].push(fc) =~= fs);
    reveal_with_fuel(absorb_repo, 3);
    assert(fs.drop_last() =~= seq![fb]);
    assert(seq![fb].drop_last() =~= Seq::<TextPair>::empty());
    assert(absorb_repo(w, Seq::<TextPair>::empty()) == w);
    assert(seq![fb].last() == fb);
    assert(fs.last() == fc);
    assert(absorb_repo(w, seq![fb]) == WorkerView { branch: repo_value(or_empty(branch)), ..w });
    assert(absorb_repo(w, seq![fb]) == WorkerView { branch, ..w });
    // The body reads back.
    assert forall|i: int| 0 <= i < ls.len() implies no_char(#[trigger] ls[i], '\r') && parse_h2(ls[i])
        is None && fence_step(0, ls[i]) == (0u8, false) by {
        if i == 0 {
            assert(ls[i] == field_line(fb));
        } else {
            assert(ls[i] == field_line(fc));
        }
    }
    lemma_body_lines_ok(ls);
    super::md_law::lemma_no_char_join(ls, seq!['\n'], '\r');
}

// ---------------------------------------------------------------------------
// Sections
// ---------------------------------------------------------------------------

/// One of the headings a worker keeps in its own fields.
pub open spec fn worker_heading(h: Seq<char>) -> bool {
    ||| h == "Repository"@
    ||| h == "Task"@
    ||| h == "Working On"@
    ||| h == "Claims"@
    ||| h == "Changed"@
    ||| h == "Interface Changes"@
    ||| h == "Attention"@
    ||| h == "Blocked By"@
    ||| h == "Summary"@
}

proof fn lemma_headings()
    ensures
        "Task"@ != "Repository"@,
        "Working On"@ != "Repository"@ && "Working On"@ != "Task"@,
        "Claims"@ != "Repository"@ && "Claims"@ != "Task"@ && "Claims"@ != "Working On"@,
        "Changed"@ != "Repository"@ && "Changed"@ != "Task"@ && "Changed"@ != "Working On"@
            && "Changed"@ != "Claims"@,
        "Interface Changes"@ != "Repository"@ && "Interface Changes"@ != "Task"@
            && "Interface Changes"@ != "Working On"@ && "Interface Changes"@ != "Claims"@
            && "Interface Changes"@ != "Changed"@,
        "Attention"@ != "Repository"@ && "Attention"@ != "Task"@ && "Attention"@ != "Working On"@
            && "Attention"@ != "Claims"@ && "Attention"@ != "Changed"@ && "Attention"@
            != "Interface Changes"@,
        "Blocked By"@ != "Repository"@ && "Blocked By"@ != "Task"@ && "Blocked By"@ != "Working On"@
            && "Blocked By"@ != "Claims"@ && "Blocked By"@ != "Changed"@ && "Blocked By"@
            != "Interface Changes"@ && "Blocked By"@ != "Attention"@,
        "Summary"@ != "Repository"@ && "Summary"@ != "Task"@ && "Summary"@ != "Working On"@
            && "Summary"@ != "Claims"@ && "Summary"@ != "Changed"@ && "Summary"@
            != "Interface Changes"@ && "Summary"@ != "Attention"@ && "Summary"@ != "Blocked By"@,
{
    reveal_strlit("Repository");
    reveal_strlit("Task");
    reveal_strlit("Working On");
    reveal_strlit("Claims");
    reveal_strlit("Changed");
    reveal_strlit("Interface Changes");
    reveal_strlit("Attention");
    reveal_strlit("Blocked By");
    reveal_strlit("Summary");
    let r = "Repository"@;
    let t = "Task"@;
    let wo = "Working On"@;
    let cl = "Claims"@;
    let ch = "Changed"@;
    let ic = "Interface Changes"@;
    let at = "Attention"@;
    let bb = "Blocked By"@;
    let su = "Summary"@;
    assert(r[0] == 'R' && t[0] == 'T' && wo[0] == 'W' && cl[0] == 'C' && ch[0] == 'C' && ic[0] == 'I'
        && at[0] == 'A' && bb[0] == 'B' && su[0] == 'S');
    assert(cl.len() != ch.len());
}

proof fn lemma_heading_ok(h: Seq<char>)
    requires
        worker_heading(h),
    ensures
        one_line(h),
        tight(h),
{
    reveal_strlit("Repository");
    reveal_strlit("Task");
    reveal_strlit("Working On");
    reveal_strlit("Claims");
    reveal_strlit("Changed");
    reveal_strlit("Interface Changes");
    reveal_strlit("Attention");
    reveal_strlit("Blocked By");
    reveal_strlit("Summary");
}

proof fn lemma_absorb_push(w: WorkerView, secs: Seq<TextPair>, sec: TextPair)
    ensures
        absorb_sections(w, secs.push(sec)) == absorb_section(absorb_sections(w, secs), sec),
{
    assert(secs.push(sec).drop_last() =~= secs);
    assert(secs.push(sec).last() == sec);
}

proof fn lemma_unknown_sections(w: WorkerView, head: Seq<TextPair>, extras: Seq<TextPair>)
    requires
        forall|i: int| 0 <= i < extras.len() ==> !worker_heading((#[trigger] extras[i]).0),
    ensures
        absorb_sections(w, head + extras) == (WorkerView {
            extra_sections: absorb_sections(w, head).extra_sections + extras,
            ..absorb_sections(w, head)
        }),
    decreases extras.len(),
{
    if extras.len() == 0 {
        assert(head + extras =~= head);
        assert(absorb_sections(w, head).extra_sections + extras =~= absorb_sections(w, head).extra_sections);
    } else {
        let init = extras.drop_last();
        assert forall|i: int| 0 <= i < init.len() implies !worker_heading((#[trigger] init[i]).0) by {
            assert(init[i] == extras[i]);
        }
        lemma_unknown_sections(w, head, init);
        assert((head + extras).drop_last() =~= head + init);
        assert((head + extras).last() == extras.last());
        assert(!worker_heading(extras[extras.len() - 1].0));
        assert((absorb_sections(w, head).extra_sections + init).push(extras.last())
            =~= absorb_sections(w, head).extra_sections + extras);
    }
}

/// The nine sections a worker file always has, as written for `w`.
pub open spec fn known_sections(w: WorkerView) -> Seq<TextPair> {
    seq![
        ("Repository"@, fields_text(seq![("Branch"@, or_empty(w.branch)), ("Commit"@, or_empty(w.commit))])),
        ("Task"@, w.task),
        ("Working On"@, list_text(w.working_on)),
        ("Claims"@, list_text(w.claims)),
        ("Changed"@, list_text(w.changed)),
        ("Interface Changes"@, list_text(w.interface_changes)),
        ("Attention"@, list_text(w.attention)),
        ("Blocked By"@, list_text(w.blocked_by)),
        ("Summary"@, w.summary),
    ]
}

/// A worker whose parts can be told apart in its file.
pub open spec fn worker_reads_back(w: WorkerView) -> bool {
    &&& item_ok(w.name)
    &&& opt_ok(w.branch)
    &&& opt_ok(w.commit)
    &&& body_reads_back(w.task)
    &&& body_reads_back(w.summary)
    &&& items_ok(w.working_on)
    &&& items_ok(w.claims)
    &&& items_ok(w.changed)
    &&& items_ok(w.interface_changes)
    &&& items_ok(w.attention)
    &&& items_ok(w.blocked_by)
    &&& forall|i: int| 0 <= i < w.extra_sections.len() ==> section_ok(#[trigger] w.extra_sections[i])
        && !worker_heading(w.extra_sections[i].0)
}

proof fn lemma_known_sections(start: WorkerView, w: WorkerView)
    requires
        worker_reads_back(w),
    ensures
        absorb_sections(start, known_sections(w)) == (WorkerView {
            branch: w.branch,
            commit: w.commit,
            task: w.task,
            working_on: w.working_on,
            claims: w.claims,
            changed: w.changed,
            interface_changes: w.interface_changes,
            attention: w.attention,
            blocked_by: w.blocked_by,
            summary: w.summary,
            ..start
        }),
        forall|i: int| 0 <= i < known_sections(w).len() ==> section_ok(#[trigger] known_sections(w)[i]),
{
    lemma_headings();
    let k = known_sections(w);
    lemma_repository(start, w.branch, w.commit);
    lemma_list_round_trip(w.working_on);
    lemma_list_round_trip(w.claims);
    lemma_list_round_trip(w.changed);
    lemma_list_round_trip(w.interface_changes);
    lemma_list_round_trip(w.attention);
    lemma_list_round_trip(w.blocked_by);
    let e = Seq::<TextPair>::empty();
    assert(absorb_sections(start, e) == start);
    let s1 = e.push(k[0]);
    let s2 = s1.push(k[1]);
    let s3 = s2.push(k[2]);
    let s4 = s3.push(k[3]);
    let s5 = s4.push(k[4]);
    let s6 = s5.push(k[5]);
    let s7 = s6.push(k[6]);
    let s8 = s7.push(k[7]);
    let s9 = s8.push(k[8]);
    assert(s9 =~= k);
    lemma_absorb_push(start, e, k[0]);
    lemma_absorb_push(start, s1, k[1]);
    lemma_absorb_push(start, s2, k[2]);
    lemma_absorb_push(start, s3, k[3]);
    lemma_absorb_push(start, s4, k[4]);
    lemma_absorb_push(start, s5, k[5]);
    lemma_absorb_push(start, s6, k[6]);
    lemma_absorb_push(start, s7, k[7]);
    lemma_absorb_push(start, s8, k[8]);
    let a1 = WorkerView { branch: w.branch, commit: w.commit, ..start };
    assert(absorb_sections(start, s1) == a1);
    let a2 = WorkerView { task: w.task, ..a1 };
    assert(absorb_sections(start, s2) == a2);
    let a3 = WorkerView { working_on: w.working_on, ..a2 };
    assert(absorb_sections(start, s3) == a3);
    let a4 = WorkerView { claims: w.claims, ..a3 };
    assert(absorb_sections(start, s4) == a4);
    let a5 = WorkerView { changed: w.changed, ..a4 };
    assert(absorb_sections(start, s5) == a5);
    let a6 = WorkerView { interface_changes: w.interface_changes, ..a5 };
    assert(absorb_sections(start, s6) == a6);
    let a7 = WorkerView { attention: w.attention, ..a6 };
    assert(absorb_sections(start, s7) == a7);
    let a8 = WorkerView { blocked_by: w.blocked_by, ..a7 };
    assert(absorb_sections(start, s8) == a8);
    let a9 = WorkerView { summary: w.summary, ..a8 };
    assert(absorb_sections(start, s9) == a9);
    assert forall|i: int| 0 <= i < k.len() implies section_ok(#[trigger] k[i]) by {
        assert(worker_heading(k[i].0));
        lemma_heading_ok(k[i].0);
    }
}

// ---------------------------------------------------------------------------
// The law
// ---------------------------------------------------------------------------

/// What `uuid` and chrono do with a worker's ID and time, as `hyphenated`,
/// `rfc3339` and `parse_rfc3339` state it for the values they are called
/// on: the hyphenated ID reads back as the ID, and the time is written as
/// non-empty RFC 3339 text that reads back as the same time.
pub open spec fn id_and_time_read_back(id: u128, t: Timestamp) -> bool {
    &&& reads_as(uuid_hyphenated(id), id)
    &&& rfc3339_of(t).len() > 0
    &&& forall|i: int| 0 <= i < rfc3339_of(t).len() ==> rfc3339_char(#[trigger] rfc3339_of(t)[i])
    &&& rfc3339_stable(t)
}

proof fn lemma_worker_keys()
    ensures
        valid_key("ID"@),
        valid_key("Name"@),
        valid_key("Status"@),
        valid_key("Last Updated"@),
        "ID"@ != "Name"@ && "ID"@ != "Status"@ && "ID"@ != "Last Updated"@,
        "Name"@ != "Status"@ && "Name"@ != "Last Updated"@,
        "Status"@ != "Last Updated"@,
        one_line("Worker"@) && tight("Worker"@),
{
    reveal_strlit("ID");
    reveal_strlit("Name");
    reveal_strlit("Status");
    reveal_strlit("Last Updated");
    reveal_strlit("Worker");
    assert("ID"@[0] != "Name"@[0] && "ID"@[0] != "Status"@[0] && "ID"@[0] != "Last Updated"@[0]);
    assert("Name"@[0] != "Status"@[0] && "Name"@[0] != "Last Updated"@[0]);
    assert("Status"@[0] != "Last Updated"@[0]);
    let ks = seq!["ID"@, "Name"@, "Status"@, "Last Updated"@];
    assert forall|j: int| 0 <= j < ks.len() implies valid_key(#[trigger] ks[j]) by {
        let k = ks[j];
        assert forall|i: int| 0 <= i < k.len() implies super::md::is_key_char(#[trigger] k[i]) by {}
    }
    assert(valid_key(ks[0]) && valid_key(ks[1]) && valid_key(ks[2]) && valid_key(ks[3]));
}

proof fn lemma_item_field(k: Seq<char>, v: Seq<char>)
    requires
        valid_key(k),
        item_ok(v),
    ensures
        field_ok((k, v)),
        trim(v) == v,
{
}

proof fn lemma_plain_field(k: Seq<char>, v: Seq<char>)
    requires
        valid_key(k),
        plain(v),
        v.len() > 0,
    ensures
        field_ok((k, v)),
        trim(v) == v,
{
    lemma_plain(v);
    lemma_item_field(k, v);
}

/// Reading the file a worker is written as gives the worker back.
pub proof fn lemma_worker_round_trip(w: WorkerView)
    requires
        worker_reads_back(w),
        id_and_time_read_back(w.id, w.last_updated),
    ensures
        worker_parse(doc_text(worker_doc(w))) == Ok::<WorkerView, Seq<char>>(w),
{
    let doc = worker_doc(w);
    let f = doc.1;
    let hyph = uuid_hyphenated(w.id);
    let st = worker_status_name(w.status);
    let lu = rfc3339_of(w.last_updated);
    lemma_worker_keys();
    lemma_uuid_plain(w.id);
    lemma_status(w.status);
    assert(plain(lu)) by {
        assert forall|i: int| 0 <= i < lu.len() implies plain_char(#[trigger] lu[i]) by {
            assert(rfc3339_char(lu[i]));
        }
    }
    lemma_plain_field("ID"@, hyph);
    lemma_item_field("Name"@, w.name);
    lemma_plain_field("Status"@, st);
    lemma_plain_field("Last Updated"@, lu);
    assert(f == seq![("ID"@, hyph), ("Name"@, w.name), ("Status"@, st), ("Last Updated"@, lu)]);
    assert forall|i: int| 0 <= i < f.len() implies field_ok(#[trigger] f[i]) by {}
    // Sections.
    let start = WorkerView { status: w.status, ..fresh_worker(w.id, w.name, w.last_updated) };
    lemma_known_sections(start, w);
    let k = known_sections(w);
    assert(doc.3 == k + w.extra_sections);
    assert forall|i: int| 0 <= i < doc.3.len() implies section_ok(#[trigger] doc.3[i]) by {
        if i < k.len() {
            assert(doc.3[i] == k[i]);
        } else {
            assert(doc.3[i] == w.extra_sections[i - k.len()]);
        }
    }
    reveal_strlit("");
    assert(doc_wf(doc));
    lemma_md_round_trip(doc);
    // Fields.
    super::md::lemma_key_index(f, "ID"@, 0);
    super::md::lemma_key_index(f, "Name"@, 1);
    super::md::lemma_key_index(f, "Status"@, 2);
    super::md::lemma_key_index(f, "Last Updated"@, 3);
    assert(nonblank_field(f, "ID"@) == Some(hyph));
    assert(nonblank_field(f, "Name"@) == Some(w.name));
    assert(nonblank_field(f, "Status"@) == Some(st));
    assert(nonblank_field(f, "Last Updated"@) == Some(lu));
    assert(timestamp_result(chrono_rfc3339_parse(lu)) == Ok::<Timestamp, Seq<char>>(w.last_updated));
    assert forall|i: int| 0 <= i < w.extra_sections.len() implies !worker_heading(
        (#[trigger] w.extra_sections[i]).0,
    ) by {}
    lemma_unknown_sections(start, k, w.extra_sections);
    assert(Seq::<TextPair>::empty() + w.extra_sections =~= w.extra_sections);
    assert(absorb_sections(start, doc.3) == w);
}

} // verus!
