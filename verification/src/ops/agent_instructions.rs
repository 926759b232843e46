//! ctx-sync guidance in the project's AGENTS.md, added without changing its
//! existing text.

use vstd::prelude::*;

use crate::text::{chars_of, ends_with, starts_with, lines, lines_vec, string_of, vec_ends_with, vec_eq, vv};

verus! {

pub const AGENT_INSTRUCTIONS_HEADING: &'static str = "## Shared Context";

pub open spec fn section_text() -> Seq<char> {
    "## Shared Context\n\nThis project uses ctx-sync.\n\nBefore starting work:\n\n    ctx-sync agent start\n\nBefore finishing work:\n\n    ctx-sync agent finish\n\nRead shared architecture, decisions, worker state and attention items before changing overlapping code.\n\nDo not place chain-of-thought or temporary debugging reasoning into ctx-sync.\n"@
}

pub fn agent_instructions_section() -> (s: &'static str)
    ensures
        s@ == section_text(),
{
    "## Shared Context\n\nThis project uses ctx-sync.\n\nBefore starting work:\n\n    ctx-sync agent start\n\nBefore finishing work:\n\n    ctx-sync agent finish\n\nRead shared architecture, decisions, worker state and attention items before changing overlapping code.\n\nDo not place chain-of-thought or temporary debugging reasoning into ctx-sync.\n"
}

#[derive(Debug, Clone, Copy, PartialEq, Eq, Structural)]
pub enum InstallOutcome {
    Created,
    Appended,
    AlreadyPresent,
}

/// A line (without a trailing `\r`) is the section heading.
pub open spec fn has_heading(text: Seq<char>) -> bool {
    exists|i: int| 0 <= i < lines(text).len() && crate::text::trim_end_char(lines(text)[i], '\r') == "## Shared Context"@
}

/// What goes between the existing text and the section.
pub open spec fn separator(text: Seq<char>) -> Seq<char> {
    if text.len() == 0 || ends_with(text, "\n\n"@) || ends_with(text, "\r\n\r\n"@) {
        Seq::empty()
    } else if ends_with(text, "\n"@) {
        "\n"@
    } else {
        "\n\n"@
    }
}

/// The outcome and, when something needs to be written, the new document.
pub open spec fn merged(existing: Option<Seq<char>>) -> (InstallOutcome, Option<Seq<char>>) {
    match existing {
        None => (InstallOutcome::Created, Some("# AGENTS.md\n\n"@ + section_text())),
        Some(text) => if has_heading(text) {
            (InstallOutcome::AlreadyPresent, None)
        } else {
            (InstallOutcome::Appended, Some(text + separator(text) + section_text()))
        },
    }
}

/// Return the new document only when something needs to be written.
pub fn merge_agent_instructions(existing: Option<&str>) -> (r: (InstallOutcome, Option<String>))
    ensures
        r.0 == merged(match existing {
            Some(t) => Some(t@),
            None => None::<Seq<char>>,
        }).0,
        crate::model::decision::opt_view(r.1) == merged(match existing {
            Some(t) => Some(t@),
            None => None::<Seq<char>>,
        }).1,
{
    match existing {
        None => {
            let mut s = String::new();
            s.append("# AGENTS.md\n\n");
            s.append(agent_instructions_section());
            (InstallOutcome::Created, Some(s))
        },
        Some(text) => {
            let t = chars_of(text);
            let ls = lines_vec(&t);
            let ghost lv = lines(text@);
            assert(vv(ls@) =~= lv);
            let heading = chars_of(AGENT_INSTRUCTIONS_HEADING);
            let mut i: usize = 0;
            while i < ls.len()
                invariant
                    i <= ls.len(),
                    vv(ls@) == lv,
                    lv == lines(text@),
                    existing == Some(text),
                    heading@ == "## Shared Context"@,
                    forall|j: int| 0 <= j < i ==> crate::text::trim_end_char(#[trigger] lv[j], '\r') != "## Shared Context"@,
                decreases ls.len() - i,
            {
                let line = crate::text::vec_trim_end_char(&ls[i], '\r');
                assert(ls@[i as int]@ == lv[i as int]);
                if vec_eq(&line, &heading) {
                    assert(crate::text::trim_end_char(lv[i as int], '\r') == "## Shared Context"@);
                    assert(has_heading(text@));
                    return (InstallOutcome::AlreadyPresent, None);
                }
                i = i + 1;
            }
            let mut s = String::from_str(text);
            if t.len() == 0 || vec_ends_with(&t, &chars_of("\n\n")) || vec_ends_with(&t, &chars_of("\r\n\r\n")) {
                proof {
                    reveal_strlit("");
                }
            } else if vec_ends_with(&t, &chars_of("\n")) {
                s.append("\n");
            } else {
                s.append("\n\n");
            }
            s.append(agent_instructions_section());
            (InstallOutcome::Appended, Some(s))
        },
    }
}

// ---------------------------------------------------------------------------
// Installing twice
// ---------------------------------------------------------------------------

/// The section appended after text that is empty or ends a line has the
/// heading on a line of its own.
proof fn lemma_heading_after(p: Seq<char>)
    requires
        p.len() == 0 || p.last() == '\n',
    ensures
        has_heading(p + section_text()),
{
    reveal_strlit("## Shared Context\n\nThis project uses ctx-sync.\n\nBefore starting work:\n\n    ctx-sync agent start\n\nBefore finishing work:\n\n    ctx-sync agent finish\n\nRead shared architecture, decisions, worker state and attention items before changing overlapping code.\n\nDo not place chain-of-thought or temporary debugging reasoning into ctx-sync.\n");
    reveal_strlit("## Shared Context");
    let sec = section_text();
    let h = "## Shared Context"@;
    let rest = sec.subrange(18, sec.len() as int);
    assert(sec =~= h + seq!['\n'] + rest);
    crate::model::md_law::lemma_split_single(h, '\n');
    crate::model::md_law::lemma_split_concat(h, rest, '\n');
    crate::text::lemma_split_nonempty(rest, '\n');
    let text = p + sec;
    let k: int;
    if p.len() == 0 {
        assert(text =~= sec);
        k = 0;
    } else {
        let q = p.drop_last();
        assert(text =~= q + seq!['\n'] + sec);
        crate::model::md_law::lemma_split_concat(q, sec, '\n');
        crate::text::lemma_split_nonempty(q, '\n');
        k = crate::text::split(q, '\n').len() as int;
    }
    let parts = crate::text::split(text, '\n');
    assert(parts[k] == h);
    assert(k < parts.len() - 1);
    assert(h.last() != '\r');
    assert(lines(text)[k] == crate::text::strip_cr(parts[k]));
    assert(crate::text::strip_cr(h) == h);
    assert(crate::text::trim_end_char(h, '\r') == h);
    assert(crate::text::trim_end_char(lines(text)[k], '\r') == h);
}

/// Installing the guidance a second time changes nothing: the document
/// written the first time already has the section. That document ends with
/// the section, and where there was a document it begins with its text
/// unchanged.
pub proof fn lemma_install_idempotent(existing: Option<Seq<char>>)
    requires
        merged(existing).1 is Some,
    ensures
        merged(merged(existing).1) == (InstallOutcome::AlreadyPresent, None::<Seq<char>>),
        ends_with(merged(existing).1.unwrap(), section_text()),
        existing matches Some(t) ==> starts_with(merged(existing).1.unwrap(), t),
{
    let x = merged(existing).1.unwrap();
    match existing {
        None => {
            assert(x.subrange(x.len() - section_text().len(), x.len() as int) =~= section_text());
        },
        Some(t) => {
            assert(x.subrange(x.len() - section_text().len(), x.len() as int) =~= section_text());
            assert(x.subrange(0, t.len() as int) =~= t);
        },
    }
    match existing {
        None => {
            reveal_strlit("# AGENTS.md\n\n");
            lemma_heading_after("# AGENTS.md\n\n"@);
        },
        Some(text) => {
            reveal_strlit("\n\n");
            reveal_strlit("\r\n\r\n");
            reveal_strlit("\n");
            let sep = separator(text);
            let p = text + sep;
            if text.len() > 0 {
                if ends_with(text, "\n\n"@) {
                    assert(text.subrange(text.len() - 2, text.len() as int)[1] == text.last());
                } else if ends_with(text, "\r\n\r\n"@) {
                    assert(text.subrange(text.len() - 4, text.len() as int)[3] == text.last());
                }
            }
            assert(p.len() == 0 || p.last() == '\n');
            lemma_heading_after(p);
            assert(text + sep + section_text() == p + section_text());
        },
    }
}

} // verus!
