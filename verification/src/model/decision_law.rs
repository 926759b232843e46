//! Reading a written decision gives the decision back.
//!
//! A decision round-trips when its parts can be told apart in its file: the
//! title, the author and the section headings single-line and without
//! surrounding whitespace, section bodies that read back as themselves, no
//! unknown section under one of the four known headings, a date that
//! `%Y-%m-%d` writes and reads back, and IDs that are valid.

use vstd::prelude::*;

use super::decision::{
    absorb, absorb_all, decision_doc, decision_file_name, decision_parse, decision_title,
    decision_wf, first_invalid_id, id_of_file_name, id_parts, list_items, nonblank_field,
    nonempty_trimmed, slug_char, status_from_text, status_name, supersede_items,
    valid_decision_id, DecisionStatus, DecisionView,
};
use super::md::{doc_text, lookup, parse_doc, valid_key, TextPair};
use super::md_law::{
    body_reads_back, doc_wf, field_ok, lemma_md_round_trip, lemma_split_concat,
    lemma_split_single, no_char, one_line, section_ok, tight,
};
use crate::clock::{chrono_date_parse, chrono_date_text, dashed_form, date_result, Date};
use crate::text::{
    eq_ignore_ascii_case, find_char, is_digit, is_lower, is_ws, join, split, split_once,
    trim, trim_start, lemma_find_char,
};

verus! {

// ---------------------------------------------------------------------------
// IDs
// ---------------------------------------------------------------------------

/// Every character of a valid ID is a digit, a lowercase letter or `-`.
proof fn lemma_id_chars(s: Seq<char>)
    requires
        valid_decision_id(s),
    ensures
        s.len() > 0,
        forall|k: int| 0 <= k < s.len() ==> slug_char(#[trigger] s[k]),
{
    lemma_find_char(s, '-');
    let i = find_char(s, '-').unwrap();
    let a = split_once(s, '-').unwrap();
    lemma_find_char(a.1, '-');
    let j = find_char(a.1, '-').unwrap();
    let p = id_parts(s).unwrap();
    assert(p.0 == s.subrange(0, i));
    assert(p.1 == a.1.subrange(0, j));
    assert(p.2 == a.1.subrange(j + 1, a.1.len() as int));
    assert forall|k: int| 0 <= k < s.len() implies slug_char(#[trigger] s[k]) by {
        if k < i {
            assert(s[k] == p.0[k]);
            assert(is_digit(p.0[k]));
        } else if k == i {
        } else {
            let m = k - i - 1;
            assert(s[k] == a.1[m]);
            if m < j {
                assert(a.1[m] == p.1[m]);
                assert(is_digit(p.1[m]));
            } else if m == j {
            } else {
                assert(a.1[m] == p.2[m - j - 1]);
            }
        }
    }
}

proof fn lemma_slug_chars_plain(s: Seq<char>)
    requires
        forall|k: int| 0 <= k < s.len() ==> slug_char(#[trigger] s[k]),
    ensures
        forall|k: int| 0 <= k < s.len() ==> !is_ws(#[trigger] s[k]),
        no_char(s, '\n'),
        no_char(s, '\r'),
        no_char(s, ','),
{
    assert forall|k: int| 0 <= k < s.len() implies !is_ws(#[trigger] s[k]) by {
        assert(slug_char(s[k]));
    }
    assert forall|k: int| 0 <= k < s.len() implies s[k] != '\n' by {
        assert(slug_char(s[k]));
    }
    assert forall|k: int| 0 <= k < s.len() implies s[k] != '\r' by {
        assert(slug_char(s[k]));
    }
    assert forall|k: int| 0 <= k < s.len() implies s[k] != ',' by {
        assert(slug_char(s[k]));
    }
}

/// A valid ID is one line with no whitespace at either end.
proof fn lemma_id_plain(s: Seq<char>)
    requires
        valid_decision_id(s),
    ensures
        s.len() > 0,
        tight(s),
        one_line(s),
        no_char(s, ','),
        trim(s) == s,
{
    lemma_id_chars(s);
    lemma_slug_chars_plain(s);
    assert(!is_ws(s[0]));
    assert(!is_ws(s[s.len() - 1]));
}

proof fn lemma_tight_trim(s: Seq<char>)
    requires
        tight(s),
    ensures
        trim(s) == s,
{
}

/// The ID a decision file name names.
proof fn lemma_file_name(id: Seq<char>)
    requires
        valid_decision_id(id),
    ensures
        id_of_file_name(decision_file_name(id)) == Some(id),
{
    reveal_strlit(".md");
    let n = decision_file_name(id);
    let p = "30-decision-"@;
    assert(n.subrange(0, p.len() as int) =~= p);
    let rest = n.subrange(p.len() as int, n.len() as int);
    assert(rest =~= id + ".md"@);
    assert(rest.subrange(rest.len() - 3, rest.len() as int) =~= ".md"@);
    assert(rest.subrange(0, rest.len() - 3) =~= id);
}

// ---------------------------------------------------------------------------
// Status, title
// ---------------------------------------------------------------------------

proof fn lemma_status(s: DecisionStatus)
    ensures
        status_from_text(status_name(s)) == Some(s),
        status_name(s).len() > 0,
        tight(status_name(s)),
        one_line(status_name(s)),
{
    reveal_strlit("proposed");
    reveal_strlit("accepted");
    reveal_strlit("superseded");
    reveal_strlit("rejected");
    let n = status_name(s);
    assert forall|k: int| 0 <= k < n.len() implies is_lower(#[trigger] n[k]) by {
    }
    assert(!is_ws(n[0]));
    assert(!is_ws(n[n.len() - 1]));
    assert(trim(n) == n);
    assert(eq_ignore_ascii_case(n, n));
    let p = "proposed"@;
    let a = "accepted"@;
    let r = "rejected"@;
    if n != p {
        assert(crate::text::ascii_lower(n[0]) != crate::text::ascii_lower(p[0]));
    }
    if n != a {
        assert(n.len() != a.len() || crate::text::ascii_lower(n[0]) != crate::text::ascii_lower(a[0]));
    }
    if n != r {
        assert(n.len() != r.len() || crate::text::ascii_lower(n[0]) != crate::text::ascii_lower(r[0]));
    }
}

/// The title written after `Decision: ` reads back as itself.
proof fn lemma_title(t: Seq<char>)
    requires
        t.len() > 0,
        tight(t),
        one_line(t),
    ensures
        decision_title("Decision: "@ + t) == t,
        one_line("Decision: "@ + t),
        tight("Decision: "@ + t),
{
    reveal_strlit("Decision: ");
    reveal_strlit("Decision:");
    let full = "Decision: "@ + t;
    assert(full.subrange(0, 9) =~= "Decision:"@);
    let r = full.subrange(9, full.len() as int);
    assert(r =~= seq![' '] + t);
    assert(r.drop_first() =~= t);
    assert(trim_start(r) == trim_start(t));
    assert(no_char(full, '\n')) by {
        assert forall|k: int| 0 <= k < full.len() implies full[k] != '\n' by {
            if k >= 10 {
                assert(full[k] == t[k - 10]);
            }
        }
    }
    assert(no_char(full, '\r')) by {
        assert forall|k: int| 0 <= k < full.len() implies full[k] != '\r' by {
            if k >= 10 {
                assert(full[k] == t[k - 10]);
            }
        }
    }
    assert(full.last() == t.last());
}

// ---------------------------------------------------------------------------
// Supersedes
// ---------------------------------------------------------------------------

proof fn lemma_nonempty_trimmed_push(a: Seq<Seq<char>>, x: Seq<char>)
    requires
        trim(x).len() > 0,
    ensures
        nonempty_trimmed(a.push(x)) == nonempty_trimmed(a).push(trim(x)),
{
    assert(a.push(x).drop_last() =~= a);
}

/// The listed IDs, joined with `, `, read back as the same list.
proof fn lemma_list_items_join(ids: Seq<Seq<char>>)
    requires
        ids.len() > 0,
        forall|i: int| 0 <= i < ids.len() ==> valid_decision_id(#[trigger] ids[i]),
    ensures
        list_items(join(ids, ", "@)) == ids,
        no_char(join(ids, ", "@), '\n'),
        no_char(join(ids, ", "@), '\r'),
        join(ids, ", "@).len() > 0,
        !is_ws(join(ids, ", "@).last()),
    decreases ids.len(),
{
    reveal_strlit(", ");
    let last = ids.last();
    assert(valid_decision_id(ids[ids.len() - 1]));
    lemma_id_plain(last);
    lemma_id_chars(last);
    lemma_slug_chars_plain(last);
    if ids.len() == 1 {
        assert(join(ids, ", "@) == ids[0]);
        lemma_split_single(last, ',');
        lemma_nonempty_trimmed_push(Seq::<Seq<char>>::empty(), last);
        assert(seq![last] =~= Seq::<Seq<char>>::empty().push(last));
        assert(ids =~= seq![last]);
    } else {
        let init = ids.drop_last();
        assert forall|i: int| 0 <= i < init.len() implies valid_decision_id(#[trigger] init[i]) by {
            assert(init[i] == ids[i]);
        }
        lemma_list_items_join(init);
        let a = join(init, ", "@);
        let b = seq![' '] + last;
        assert(join(ids, ", "@) =~= a + seq![','] + b);
        lemma_split_concat(a, b, ',');
        assert(no_char(b, ',')) by {
            assert forall|k: int| 0 <= k < b.len() implies b[k] != ',' by {
                if k > 0 {
                    assert(b[k] == last[k - 1]);
                }
            }
        }
        lemma_split_single(b, ',');
        assert(b.drop_first() =~= last);
        assert(trim_start(b) == trim_start(last));
        assert(trim(b) == last);
        assert(split(a, ',') + seq![b] =~= split(a, ',').push(b));
        lemma_nonempty_trimmed_push(split(a, ','), b);
        assert(init.push(last) =~= ids);
        let full = join(ids, ", "@);
        assert(no_char(full, '\n')) by {
            assert forall|k: int| 0 <= k < full.len() implies full[k] != '\n' by {
                if k < a.len() {
                    assert(full[k] == a[k]);
                } else if k > a.len() + 1 {
                    assert(full[k] == last[k - a.len() - 2]);
                }
            }
        }
        assert(no_char(full, '\r')) by {
            assert forall|k: int| 0 <= k < full.len() implies full[k] != '\r' by {
                if k < a.len() {
                    assert(full[k] == a[k]);
                } else if k > a.len() + 1 {
                    assert(full[k] == last[k - a.len() - 2]);
                }
            }
        }
        assert(full.last() == last.last());
    }
}

proof fn lemma_all_valid(ids: Seq<Seq<char>>)
    requires
        forall|i: int| 0 <= i < ids.len() ==> valid_decision_id(#[trigger] ids[i]),
    ensures
        first_invalid_id(ids) is None,
    decreases ids.len(),
{
    if ids.len() > 0 {
        assert(valid_decision_id(ids[0]));
        let rest = ids.drop_first();
        assert forall|i: int| 0 <= i < rest.len() implies valid_decision_id(#[trigger] rest[i]) by {
            assert(rest[i] == ids[i + 1]);
        }
        lemma_all_valid(rest);
    }
}

// ---------------------------------------------------------------------------
// Sections
// ---------------------------------------------------------------------------

/// One of the headings a decision keeps in its own fields.
pub open spec fn known_heading(h: Seq<char>) -> bool {
    h == "Context"@ || h == "Decision"@ || h == "Reason"@ || h == "Consequences"@
}

proof fn lemma_unknown_sections(dv: DecisionView, head: Seq<TextPair>, extras: Seq<TextPair>)
    requires
        forall|i: int| 0 <= i < extras.len() ==> !known_heading((#[trigger] extras[i]).0),
    ensures
        absorb_all(dv, head + extras) == (DecisionView {
            extra_sections: absorb_all(dv, head).extra_sections + extras,
            ..absorb_all(dv, head)
        }),
    decreases extras.len(),
{
    if extras.len() == 0 {
        assert(head + extras =~= head);
        assert(absorb_all(dv, head).extra_sections + extras =~= absorb_all(dv, head).extra_sections);
    } else {
        let init = extras.drop_last();
        assert forall|i: int| 0 <= i < init.len() implies !known_heading((#[trigger] init[i]).0) by {
            assert(init[i] == extras[i]);
        }
        lemma_unknown_sections(dv, head, init);
        assert((head + extras).drop_last() =~= head + init);
        assert((head + extras).last() == extras.last());
        assert(!known_heading(extras[extras.len() - 1].0));
        assert((absorb_all(dv, head).extra_sections + init).push(extras.last())
            =~= absorb_all(dv, head).extra_sections + extras);
    }
}

proof fn lemma_known_sections(dv: DecisionView, c: Seq<char>, d: Seq<char>, r: Seq<char>, k: Seq<char>)
    ensures
        absorb_all(dv, seq![("Context"@, c), ("Decision"@, d), ("Reason"@, r), ("Consequences"@, k)])
            == (DecisionView { context: c, decision: d, reason: r, consequences: k, ..dv }),
{
    reveal_strlit("Context");
    reveal_strlit("Decision");
    reveal_strlit("Reason");
    reveal_strlit("Consequences");
    let s1 = seq![("Context"@, c)];
    let s2 = seq![("Context"@, c), ("Decision"@, d)];
    let s3 = seq![("Context"@, c), ("Decision"@, d), ("Reason"@, r)];
    let s4 = seq![("Context"@, c), ("Decision"@, d), ("Reason"@, r), ("Consequences"@, k)];
    assert(s4.drop_last() =~= s3);
    assert(s3.drop_last() =~= s2);
    assert(s2.drop_last() =~= s1);
    assert(s1.drop_last() =~= Seq::<TextPair>::empty());
    assert(absorb_all(dv, Seq::<TextPair>::empty()) == dv);
    assert(s1.last() == ("Context"@, c));
    assert(absorb_all(dv, s1) == absorb(dv, ("Context"@, c)));
    assert(s2.last() == ("Decision"@, d));
    assert(absorb_all(dv, s2) == absorb(absorb_all(dv, s1), ("Decision"@, d)));
    assert(s3.last() == ("Reason"@, r));
    assert(absorb_all(dv, s3) == absorb(absorb_all(dv, s2), ("Reason"@, r)));
    assert(s4.last() == ("Consequences"@, k));
    assert(absorb_all(dv, s4) == absorb(absorb_all(dv, s3), ("Consequences"@, k)));
    assert("Decision"@[0] != "Context"@[0]);
    assert("Reason"@[0] != "Context"@[0] && "Reason"@[0] != "Decision"@[0]);
    assert("Consequences"@.len() != "Context"@.len());
    assert("Consequences"@[0] != "Decision"@[0] && "Consequences"@[0] != "Reason"@[0]);
    let a1 = DecisionView { context: c, ..dv };
    assert(absorb_all(dv, s1) == a1);
    let a2 = DecisionView { decision: d, ..a1 };
    assert(absorb_all(dv, s2) == a2);
    let a3 = DecisionView { reason: r, ..a2 };
    assert(absorb_all(dv, s3) == a3);
    let a4 = DecisionView { consequences: k, ..a3 };
    assert(absorb_all(dv, s4) == a4);
}

proof fn lemma_known_section_ok(h: Seq<char>, b: Seq<char>)
    requires
        known_heading(h),
        body_reads_back(b),
    ensures
        section_ok((h, b)),
{
    reveal_strlit("Context");
    reveal_strlit("Decision");
    reveal_strlit("Reason");
    reveal_strlit("Consequences");
    assert forall|k: int| 0 <= k < h.len() implies crate::text::is_alpha(#[trigger] h[k]) by {}
}

// ---------------------------------------------------------------------------
// Fields
// ---------------------------------------------------------------------------

proof fn lemma_field_keys()
    ensures
        "ID"@ != "Status"@,
        "ID"@ != "Date"@,
        "ID"@ != "Author"@,
        "ID"@ != "Supersedes"@,
        "Status"@ != "Date"@,
        "Status"@ != "Author"@,
        "Status"@ != "Supersedes"@,
        "Date"@ != "Author"@,
        "Date"@ != "Supersedes"@,
        "Author"@ != "Supersedes"@,
        valid_key("ID"@),
        valid_key("Status"@),
        valid_key("Date"@),
        valid_key("Author"@),
        valid_key("Supersedes"@),
{
    reveal_strlit("ID");
    reveal_strlit("Status");
    reveal_strlit("Date");
    reveal_strlit("Author");
    reveal_strlit("Supersedes");
    assert("ID"@[0] != "Status"@[0] && "ID"@[0] != "Date"@[0] && "ID"@[0] != "Author"@[0]
        && "ID"@[0] != "Supersedes"@[0]);
    assert("Status"@[0] != "Date"@[0] && "Status"@[0] != "Author"@[0]);
    assert("Status"@.len() != "Supersedes"@.len());
    assert("Date"@[0] != "Author"@[0] && "Date"@[0] != "Supersedes"@[0]);
    assert("Author"@[0] != "Supersedes"@[0]);
    let ks = seq!["ID"@, "Status"@, "Date"@, "Author"@, "Supersedes"@];
    assert forall|j: int| 0 <= j < ks.len() implies valid_key(#[trigger] ks[j]) by {
        let k = ks[j];
        assert forall|i: int| 0 <= i < k.len() implies super::md::is_key_char(#[trigger] k[i]) by {}
    }
    assert(valid_key(ks[0]) && valid_key(ks[1]) && valid_key(ks[2]) && valid_key(ks[3])
        && valid_key(ks[4]));
}

/// The dashed form of a date of year 0 to 9999 is one line with no
/// whitespace at either end.
proof fn lemma_dashed_plain(d: Date)
    requires
        crate::clock::date_is_valid(d),
        0 <= d.year <= 9999,
    ensures
        tight(dashed_form(d)),
        one_line(dashed_form(d)),
        dashed_form(d).len() > 0,
{
    crate::clock::lemma_date_forms(d);
    let s = dashed_form(d);
    assert forall|k: int| 0 <= k < s.len() implies s[k] == '-' || is_digit(#[trigger] s[k]) by {
        if k < 4 {
            assert(s[k] == s.subrange(0, 4)[k]);
        } else if 4 < k < 7 {
            assert(s[k] == s.subrange(5, 7)[k - 5]);
        } else if 7 < k {
            assert(s[k] == s.subrange(8, 10)[k - 8]);
        }
    }
    assert(s[0] == '-' || is_digit(s[0]));
    assert(s[9] == '-' || is_digit(s[9]));
}

// ---------------------------------------------------------------------------
// The law
// ---------------------------------------------------------------------------

/// What chrono's `%Y-%m-%d` format does with `d`: it writes the dashed form
/// and reads that text back as `d`. `dashed_date_text` and
/// `parse_dashed_date` state this of a date of year 0 to 9999 for the text
/// they are called on.
pub open spec fn dashed_round_trip(d: Date) -> bool {
    &&& chrono_date_text("%Y-%m-%d"@, d.year, d.month, d.day) == dashed_form(d)
    &&& date_result(chrono_date_parse(dashed_form(d), "%Y-%m-%d"@)) == Ok::<Date, Seq<char>>(d)
}

/// A decision whose parts can be told apart in its file.
pub open spec fn decision_reads_back(d: DecisionView) -> bool {
    &&& decision_wf(d)
    &&& 0 <= d.date.year <= 9999
    &&& d.title.len() > 0
    &&& tight(d.title)
    &&& one_line(d.title)
    &&& (d.author matches Some(a) ==> a.len() > 0 && tight(a) && one_line(a))
    &&& body_reads_back(d.context)
    &&& body_reads_back(d.decision)
    &&& body_reads_back(d.reason)
    &&& body_reads_back(d.consequences)
    &&& forall|i: int| 0 <= i < d.extra_sections.len() ==> section_ok(#[trigger] d.extra_sections[i])
        && !known_heading(d.extra_sections[i].0)
}

/// Reading the file a decision is written as, under the name it is written
/// to, gives the decision back.
pub proof fn lemma_decision_round_trip(d: DecisionView)
    requires
        decision_reads_back(d),
        dashed_round_trip(d.date),
    ensures
        decision_parse(decision_file_name(d.id), doc_text(decision_doc(d))) == Ok::<
            DecisionView,
            Seq<char>,
        >(d),
{
    let doc = decision_doc(d);
    let f = doc.1;
    lemma_field_keys();
    lemma_id_plain(d.id);
    lemma_status(d.status);
    lemma_dashed_plain(d.date);
    lemma_title(d.title);
    let date_text = chrono_date_text("%Y-%m-%d"@, d.date.year, d.date.month, d.date.day);
    let base = seq![("ID"@, d.id), ("Status"@, status_name(d.status)), ("Date"@, date_text)];
    let with_author = match d.author {
        Some(a) => base.push(("Author"@, a)),
        None => base,
    };
    let sup = join(d.supersedes, ", "@);
    if d.supersedes.len() > 0 {
        lemma_list_items_join(d.supersedes);
        assert(f == with_author.push(("Supersedes"@, sup)));
    } else {
        assert(f == with_author);
    }
    // The document reads back.
    assert forall|i: int| 0 <= i < f.len() implies field_ok(#[trigger] f[i]) by {
        if i < 3 {
            assert(f[i] == base[i]);
        } else if i == 3 && d.author is Some {
            assert(f[i] == ("Author"@, d.author.unwrap()));
        } else {
            assert(f[i] == ("Supersedes"@, sup));
        }
    }
    reveal_strlit("Context");
    reveal_strlit("Decision");
    reveal_strlit("Reason");
    reveal_strlit("Consequences");
    let four = seq![
        ("Context"@, d.context),
        ("Decision"@, d.decision),
        ("Reason"@, d.reason),
        ("Consequences"@, d.consequences),
    ];
    assert(doc.3 == four + d.extra_sections);
    lemma_known_section_ok("Context"@, d.context);
    lemma_known_section_ok("Decision"@, d.decision);
    lemma_known_section_ok("Reason"@, d.reason);
    lemma_known_section_ok("Consequences"@, d.consequences);
    assert forall|i: int| 0 <= i < doc.3.len() implies section_ok(#[trigger] doc.3[i]) by {
        if i < 4 {
            assert(doc.3[i] == four[i]);
        } else {
            assert(doc.3[i] == d.extra_sections[i - 4]);
        }
    }
    reveal_strlit("");
    assert(doc_wf(doc));
    lemma_md_round_trip(doc);
    assert(parse_doc(doc_text(doc)) == Some(doc));
    lemma_file_name(d.id);
    // Fields.
    super::md::lemma_key_index(f, "Status"@, 1);
    assert(lookup(f, "Status"@) == Some(status_name(d.status)));
    super::md::lemma_key_index(f, "Date"@, 2);
    assert(nonblank_field(f, "Date"@) == Some(dashed_form(d.date)));
    match d.author {
        Some(a) => {
            super::md::lemma_key_index(f, "Author"@, 3);
            assert(nonblank_field(f, "Author"@) == Some(a));
        },
        None => {
            super::md::lemma_key_index(f, "Author"@, f.len() as int);
            assert(nonblank_field(f, "Author"@) == None::<Seq<char>>);
        },
    }
    if d.supersedes.len() > 0 {
        super::md::lemma_key_index(f, "Supersedes"@, f.len() - 1);
        assert(supersede_items(f) == d.supersedes);
    } else {
        super::md::lemma_key_index(f, "Supersedes"@, f.len() as int);
        assert(split(Seq::<char>::empty(), ',') =~= seq![Seq::<char>::empty()]);
        assert(seq![Seq::<char>::empty()].drop_last() =~= Seq::<Seq<char>>::empty());
        assert(trim(Seq::<char>::empty()) =~= Seq::<char>::empty());
        assert(nonempty_trimmed(Seq::<Seq<char>>::empty()) =~= Seq::<Seq<char>>::empty());
        assert(nonempty_trimmed(seq![Seq::<char>::empty()]) =~= Seq::<Seq<char>>::empty());
        assert(supersede_items(f) =~= d.supersedes);
    }
    lemma_all_valid(d.supersedes);
    // Sections.
    let start = DecisionView {
        id: d.id,
        title: decision_title(doc.0),
        status: d.status,
        date: d.date,
        author: nonblank_field(f, "Author"@),
        supersedes: supersede_items(f),
        context: Seq::empty(),
        decision: Seq::empty(),
        reason: Seq::empty(),
        consequences: Seq::empty(),
        extra_sections: Seq::empty(),
    };
    lemma_known_sections(start, d.context, d.decision, d.reason, d.consequences);
    assert forall|i: int| 0 <= i < d.extra_sections.len() implies !known_heading(
        (#[trigger] d.extra_sections[i]).0,
    ) by {}
    lemma_unknown_sections(start, four, d.extra_sections);
    assert(Seq::<TextPair>::empty() + d.extra_sections =~= d.extra_sections);
    assert(absorb_all(start, doc.3) == d);
}

} // verus!
