//! Findings of `bootstrap`, split by how certain they are.
//!
//! Only `Confirmed` findings are facts. `Inferred` findings are guesses and
//! must never become decisions automatically.

use vstd::prelude::*;

use crate::model::decision::opt_view;
use crate::text::{join, sv};

verus! {

#[derive(Debug, Clone, Copy, PartialEq, Eq, Structural)]
pub enum Certainty {
    Confirmed,
    Inferred,
    Unknown,
}

#[derive(Debug, Clone, PartialEq, Eq)]
pub struct Finding {
    pub certainty: Certainty,
    /// e.g. "Language".
    pub topic: String,
    /// e.g. "Rust".
    pub text: String,
    /// e.g. "Cargo.toml".
    pub source: Option<String>,
}

/// `(certainty, topic, text, source)` of a finding.
pub type FindingView = (Certainty, Seq<char>, Seq<char>, Option<Seq<char>>);

pub open spec fn finding_view(f: Finding) -> FindingView {
    (f.certainty, f.topic@, f.text@, opt_view(f.source))
}

pub open spec fn findings_view(v: Seq<Finding>) -> Seq<FindingView> {
    v.map_values(|f: Finding| finding_view(f))
}

/// `- topic: text (source: ...)`.
pub open spec fn finding_line(f: FindingView) -> Seq<char> {
    match f.3 {
        Some(src) => "- "@ + f.1 + ": "@ + f.2 + " (source: "@ + src + ")"@,
        None => "- "@ + f.1 + ": "@ + f.2,
    }
}

/// The lines of the findings with the given certainty, in order.
pub open spec fn group_lines(fs: Seq<FindingView>, c: Certainty) -> Seq<Seq<char>>
    decreases fs.len(),
{
    if fs.len() == 0 {
        Seq::empty()
    } else {
        let r = group_lines(fs.drop_last(), c);
        if fs.last().0 == c {
            r.push(finding_line(fs.last()))
        } else {
            r
        }
    }
}

pub open spec fn group_body(fs: Seq<FindingView>, c: Certainty) -> Seq<char> {
    let items = group_lines(fs, c);
    if items.len() == 0 {
        "- _None_"@
    } else {
        join(items, seq!['\n'])
    }
}

/// The three groups under `heading` headings, each followed by its items.
pub open spec fn groups_text(fs: Seq<FindingView>, heading: Seq<char>) -> Seq<char> {
    join(
        seq![
            heading + " Confirmed"@,
            group_body(fs, Certainty::Confirmed),
            heading + " Inferred"@,
            group_body(fs, Certainty::Inferred),
            heading + " Unknown"@,
            group_body(fs, Certainty::Unknown),
        ],
        "\n\n"@,
    ) + seq!['\n']
}

impl Finding {
    pub fn confirmed(topic: &str, text: &str, source: Option<&str>) -> (f: Finding)
        ensures
            finding_view(f) == (Certainty::Confirmed, topic@, text@, match source {
                Some(s) => Some(s@),
                None => None::<Seq<char>>,
            }),
    {
        Finding::new(Certainty::Confirmed, topic, text, source)
    }

    pub fn inferred(topic: &str, text: &str, source: Option<&str>) -> (f: Finding)
        ensures
            finding_view(f) == (Certainty::Inferred, topic@, text@, match source {
                Some(s) => Some(s@),
                None => None::<Seq<char>>,
            }),
    {
        Finding::new(Certainty::Inferred, topic, text, source)
    }

    pub fn unknown(topic: &str, text: &str) -> (f: Finding)
        ensures
            finding_view(f) == (Certainty::Unknown, topic@, text@, None::<Seq<char>>),
    {
        Finding::new(Certainty::Unknown, topic, text, None)
    }

    fn new(certainty: Certainty, topic: &str, text: &str, source: Option<&str>) -> (f: Finding)
        ensures
            finding_view(f) == (certainty, topic@, text@, match source {
                Some(s) => Some(s@),
                None => None::<Seq<char>>,
            }),
    {
        Finding {
            certainty,
            topic: String::from_str(topic),
            text: String::from_str(text),
            source: match source {
                Some(s) => Some(String::from_str(s)),
                None => None,
            },
        }
    }

    fn render(&self) -> (s: String)
        ensures
            s@ == finding_line(finding_view(*self)),
    {
        let mut s = String::new();
        s.append("- ");
        s.append(self.topic.as_str());
        s.append(": ");
        s.append(self.text.as_str());
        match &self.source {
            Some(src) => {
                s.append(" (source: ");
                s.append(src.as_str());
                s.append(")");
            },
            None => {},
        }
        s
    }
}

#[derive(Debug, Clone, Default, PartialEq, Eq)]
pub struct BootstrapReport {
    pub findings: Vec<Finding>,
}

impl BootstrapReport {
    pub fn extend(&mut self, findings: Vec<Finding>)
        ensures
            final(self).findings@ == old(self).findings@ + findings@,
    {
        let ghost want = self.findings@ + findings@;
        let mut more = findings;
        while more.len() > 0
            invariant
                self.findings@ + more@ == want,
            decreases more.len(),
        {
            let ghost before = more@;
            let ghost mine = self.findings@;
            let f = more.remove(0);
            self.findings.push(f);
            assert(self.findings@ + more@ =~= mine + before);
        }
        assert(self.findings@ + more@ =~= self.findings@);
    }

    fn render_groups(&self, heading: &str) -> (s: String)
        ensures
            s@ == groups_text(findings_view(self.findings@), heading@),
    {
        let ghost fs = findings_view(self.findings@);
        let mut blocks: Vec<String> = Vec::new();
        let mut g: usize = 0;
        while g < 3
            invariant
                g <= 3,
                fs == findings_view(self.findings@),
                sv(blocks@) == groups_blocks(fs, heading@).take(2 * g as int),
            decreases 3 - g,
        {
            let (certainty, title) = if g == 0 {
                (Certainty::Confirmed, " Confirmed")
            } else if g == 1 {
                (Certainty::Inferred, " Inferred")
            } else {
                (Certainty::Unknown, " Unknown")
            };
            let mut items: Vec<String> = Vec::new();
            let mut i: usize = 0;
            while i < self.findings.len()
                invariant
                    i <= self.findings.len(),
                    fs == findings_view(self.findings@),
                    sv(items@) == group_lines(fs.take(i as int), certainty),
                decreases self.findings.len() - i,
            {
                assert(fs.take(i + 1).drop_last() =~= fs.take(i as int));
                assert(fs.take(i + 1).last() == finding_view(self.findings@[i as int]));
                if self.findings[i].certainty == certainty {
                    let line = self.findings[i].render();
                    let ghost before = items@;
                    items.push(line);
                    assert(sv(items@) =~= sv(before).push(line@));
                }
                i = i + 1;
            }
            assert(fs.take(self.findings.len() as int) =~= fs);
            let mut head = String::new();
            head.append(heading);
            head.append(title);
            let body = if items.len() == 0 {
                String::from_str("- _None_")
            } else {
                crate::text::join_strings(&items, "\n")
            };
            proof {
                reveal_strlit("\n");
                assert("\n"@ =~= seq!['\n']);
                let gb = groups_blocks(fs, heading@);
                assert(body@ == group_body(fs, certainty));
                if g == 0 {
                    assert(head@ == gb[0] && body@ == gb[1]);
                } else if g == 1 {
                    assert(head@ == gb[2] && body@ == gb[3]);
                } else {
                    assert(head@ == gb[4] && body@ == gb[5]);
                }
            }
            let ghost before = blocks@;
            blocks.push(head);
            blocks.push(body);
            assert(sv(blocks@) =~= sv(before).push(head@).push(body@));
            assert(groups_blocks(fs, heading@).take(2 * g + 2) =~= groups_blocks(fs, heading@).take(
                2 * g as int,
            ).push(head@).push(body@));
            g = g + 1;
        }
        assert(groups_blocks(fs, heading@).take(6) =~= groups_blocks(fs, heading@));
        let mut out = crate::text::join_strings(&blocks, "\n\n");
        crate::text::push_char(&mut out, '\n');
        out
    }

    /// The whole document, starting with `# Initial Context`.
    pub fn render_markdown(&self) -> (s: String)
        ensures
            s@ == "# Initial Context\n\n"@ + groups_text(findings_view(self.findings@), "##"@),
    {
        let mut s = String::new();
        s.append("# Initial Context\n\n");
        let body = self.render_groups("##");
        s.append(body.as_str());
        s
    }

    /// Body for the `## Initial Context` section of `10-project.md`
    /// (headings are `###`).
    pub fn render_section_body(&self) -> (s: String)
        ensures
            s@ == groups_text(findings_view(self.findings@), "###"@),
    {
        self.render_groups("###")
    }
}

pub open spec fn groups_blocks(fs: Seq<FindingView>, heading: Seq<char>) -> Seq<Seq<char>> {
    seq![
        heading + " Confirmed"@,
        group_body(fs, Certainty::Confirmed),
        heading + " Inferred"@,
        group_body(fs, Certainty::Inferred),
        heading + " Unknown"@,
        group_body(fs, Certainty::Unknown),
    ]
}

} // verus!
