//! Reading every file of the context repository at once.
//!
//! The files are read outside the library; what is read is handed over as
//! [`FileText`] and turned into a [`ContextSnapshot`] here.

use vstd::prelude::*;

use super::decision::{decision_parse, Decision, DecisionView};
use super::md::{parse_doc, DocView, MdDoc};
use super::meta::{schema_problem, Meta};
use crate::error::Error;
use super::worker::{worker_parse, Worker, WorkerView};
use crate::order::{char_codes, seq_lt, sort_by_key, sorted_by_key, text_before, SortKey};
use crate::text::{chars_of, ends_with, starts_with, sv, vec_ends_with, vec_eq, vec_starts_with};

verus! {

broadcast use vstd::seq_lib::group_to_multiset_ensures;

/// The message for a context without a meta file.
pub open spec fn no_meta_text() -> Seq<char> {
    "00-meta.json not found; this gist is not a ctx-sync context"@
}

/// The first step of loading a context: its `00-meta.json`, as read. A
/// context without one is refused, and so is a meta file whose
/// `schema_version` this version cannot read (`Meta::check_schema`); the
/// text that passes is what the record is then read from.
pub fn snapshot_meta(meta_text: Option<String>) -> (r: Result<String, Error>)
    ensures
        meta_text is None ==> (r matches Err(Error::InvalidConfig(m)) && m@ == no_meta_text()),
        meta_text matches Some(t) ==> match r {
            Ok(x) => x@ == t@ && schema_problem(t@) is None,
            Err(e) => schema_problem(t@) matches Some(m) && (e matches Error::InvalidConfig(x)
                && "invalid configuration: "@ + x@ == m),
        },
{
    match meta_text {
        None => Err(Error::InvalidConfig(
            String::from_str("00-meta.json not found; this gist is not a ctx-sync context"),
        )),
        Some(t) => match Meta::check_schema(t.as_str()) {
            Ok(()) => Ok(t),
            Err(e) => Err(e),
        },
    }
}

#[derive(Debug, Clone, Copy, PartialEq, Eq, Structural)]
pub enum FileKind {
    Meta,
    Project,
    Architecture,
    Decision,
    Worker,
    Other,
}

pub open spec fn kind_of(name: Seq<char>) -> FileKind {
    if name == "00-meta.json"@ {
        FileKind::Meta
    } else if name == "10-project.md"@ {
        FileKind::Project
    } else if name == "20-architecture.md"@ {
        FileKind::Architecture
    } else if starts_with(name, "30-decision-"@) && ends_with(name, ".md"@) {
        FileKind::Decision
    } else if starts_with(name, "40-worker-"@) && ends_with(name, ".md"@) {
        FileKind::Worker
    } else {
        FileKind::Other
    }
}

pub fn classify_file(name: &str) -> (k: FileKind)
    ensures
        k == kind_of(name@),
{
    let v = chars_of(name);
    if vec_eq(&v, &chars_of("00-meta.json")) {
        FileKind::Meta
    } else if vec_eq(&v, &chars_of("10-project.md")) {
        FileKind::Project
    } else if vec_eq(&v, &chars_of("20-architecture.md")) {
        FileKind::Architecture
    } else if vec_starts_with(&v, &chars_of("30-decision-")) && vec_ends_with(&v, &chars_of(".md")) {
        FileKind::Decision
    } else if vec_starts_with(&v, &chars_of("40-worker-")) && vec_ends_with(&v, &chars_of(".md")) {
        FileKind::Worker
    } else {
        FileKind::Other
    }
}

// ---------------------------------------------------------------------------
// Orders
// ---------------------------------------------------------------------------

impl SortKey for Decision {
    open spec fn sort_key(&self) -> Seq<int> {
        char_codes(self.id@)
    }

    fn key_before(&self, other: &Self) -> (r: bool) {
        text_before(&chars_of(self.id.as_str()), &chars_of(other.id.as_str()))
    }
}

impl SortKey for String {
    open spec fn sort_key(&self) -> Seq<int> {
        char_codes(self@)
    }

    fn key_before(&self, other: &Self) -> (r: bool) {
        text_before(&chars_of(self.as_str()), &chars_of(other.as_str()))
    }
}

/// Code points shifted up by one, so that a 0 after them sorts first.
pub open spec fn shifted_codes(s: Seq<char>) -> Seq<int> {
    s.map_values(|c: char| (c as u32) as int + 1)
}

/// `(name, id)` order.
pub open spec fn worker_key(name: Seq<char>, id: u128) -> Seq<int> {
    shifted_codes(name) + seq![0, id as int]
}

proof fn lemma_worker_key(a: Seq<char>, x: u128, b: Seq<char>, y: u128)
    ensures
        seq_lt(worker_key(a, x), worker_key(b, y)) == (if a == b {
            x < y
        } else {
            seq_lt(char_codes(a), char_codes(b))
        }),
    decreases a.len(),
{
    let ka = worker_key(a, x);
    let kb = worker_key(b, y);
    if a.len() == 0 && b.len() == 0 {
        assert(a =~= b);
        assert(ka =~= seq![0, x as int]);
        assert(kb =~= seq![0, y as int]);
        assert(ka.drop_first() =~= seq![x as int]);
        assert(kb.drop_first() =~= seq![y as int]);
        assert(ka.drop_first().drop_first() =~= Seq::<int>::empty());
        assert(kb.drop_first().drop_first() =~= Seq::<int>::empty());
        crate::order::lemma_seq_lt_irreflexive(Seq::<int>::empty());
        assert(seq_lt(ka, kb) == seq_lt(ka.drop_first(), kb.drop_first()));
        assert(seq_lt(ka.drop_first(), kb.drop_first()) == (if (x as int) < (y as int) {
            true
        } else if (x as int) > (y as int) {
            false
        } else {
            seq_lt(ka.drop_first().drop_first(), kb.drop_first().drop_first())
        }));
        assert(seq_lt(ka, kb) == (if a == b { x < y } else { seq_lt(char_codes(a), char_codes(b)) }));
    } else if a.len() == 0 {
        assert(ka[0] == 0 && kb[0] == (b[0] as u32) as int + 1);
        assert((b[0] as u32) as int >= 0);
        assert(ka.len() > 0 && kb.len() > 0);
        assert(char_codes(a).len() == 0 && char_codes(b).len() > 0);
        assert(a != b);
        assert(seq_lt(ka, kb) == (if a == b { x < y } else { seq_lt(char_codes(a), char_codes(b)) }));
    } else if b.len() == 0 {
        assert(kb[0] == 0 && ka[0] == (a[0] as u32) as int + 1);
        assert((a[0] as u32) as int >= 0);
        assert(ka.len() > 0 && kb.len() > 0);
        assert(char_codes(b).len() == 0 && char_codes(a).len() > 0);
        assert(a != b);
        assert(seq_lt(ka, kb) == (if a == b { x < y } else { seq_lt(char_codes(a), char_codes(b)) }));
    } else {
        vstd::utf8::char_u32_cast(a[0], a[0] as u32);
        vstd::utf8::char_u32_cast(b[0], b[0] as u32);
        assert(ka[0] == (a[0] as u32) as int + 1 && kb[0] == (b[0] as u32) as int + 1);
        assert(char_codes(a)[0] == (a[0] as u32) as int && char_codes(b)[0] == (b[0] as u32) as int);
        assert(ka.drop_first() =~= worker_key(a.drop_first(), x));
        assert(kb.drop_first() =~= worker_key(b.drop_first(), y));
        assert(char_codes(a).drop_first() =~= char_codes(a.drop_first()));
        assert(char_codes(b).drop_first() =~= char_codes(b.drop_first()));
        lemma_worker_key(a.drop_first(), x, b.drop_first(), y);
        assert(seq_lt(ka, kb) == (if ka[0] < kb[0] {
            true
        } else if ka[0] > kb[0] {
            false
        } else {
            seq_lt(ka.drop_first(), kb.drop_first())
        }));
        let ca = char_codes(a);
        let cb = char_codes(b);
        assert(seq_lt(ca, cb) == (if ca[0] < cb[0] {
            true
        } else if ca[0] > cb[0] {
            false
        } else {
            seq_lt(ca.drop_first(), cb.drop_first())
        }));
        if a[0] == b[0] {
            if a.drop_first() == b.drop_first() {
                assert forall|i: int| 0 <= i < a.len() implies a[i] == b[i] by {
                    if i > 0 {
                        assert(a[i] == a.drop_first()[i - 1]);
                        assert(b[i] == b.drop_first()[i - 1]);
                    }
                }
                assert(a =~= b);
            } else {
                assert(a != b);
            }
        } else {
            assert(a != b);
        }
    }
}

impl SortKey for Worker {
    open spec fn sort_key(&self) -> Seq<int> {
        worker_key(self.name@, self.id)
    }

    fn key_before(&self, other: &Self) -> (r: bool) {
        proof {
            lemma_worker_key(self.name@, self.id, other.name@, other.id);
        }
        let a = chars_of(self.name.as_str());
        let b = chars_of(other.name.as_str());
        if vec_eq(&a, &b) {
            self.id < other.id
        } else {
            text_before(&a, &b)
        }
    }
}

// ---------------------------------------------------------------------------
// Snapshot
// ---------------------------------------------------------------------------

/// What reading a file gave.
#[derive(Debug)]
pub enum FileText {
    Text(String),
    Missing,
    /// Another I/O error, with its text.
    Unreadable(String),
}

/// Parsed contents of the context repository.
#[derive(Debug, Clone)]
pub struct ContextSnapshot {
    pub meta: Meta,
    pub project: MdDoc,
    pub architecture: MdDoc,
    /// Sorted by id.
    pub decisions: Vec<Decision>,
    /// Sorted by (name, id).
    pub workers: Vec<Worker>,
    /// Files that were missing or could not be parsed.
    pub warnings: Vec<String>,
}

/// A document with only a title.
pub open spec fn titled(title: Seq<char>) -> DocView {
    (title, Seq::empty(), Seq::empty(), Seq::empty())
}

/// The document read from `file`, or an empty one with `title` and a warning.
pub open spec fn doc_load(file: Seq<char>, title: Seq<char>, f: FileText) -> (DocView, Seq<Seq<char>>) {
    match f {
        FileText::Text(t) => match parse_doc(t@) {
            Some(d) => (d, Seq::empty()),
            None => (
                titled(title),
                seq![file + " could not be parsed: invalid markdown: missing '# ' title"@],
            ),
        },
        FileText::Missing => (titled(title), seq![file + " not found"@]),
        FileText::Unreadable(e) => (titled(title), seq!["cannot read "@ + file + ": "@ + e@]),
    }
}

/// The parsed decisions, the parsed workers and the warnings, file by file.
pub ghost struct Collected {
    pub decisions: Seq<DecisionView>,
    pub workers: Seq<WorkerView>,
    pub warnings: Seq<Seq<char>>,
}

pub open spec fn collect_file(c: Collected, name: Seq<char>, f: FileText) -> Collected {
    let kind = kind_of(name);
    if kind != FileKind::Decision && kind != FileKind::Worker {
        c
    } else {
        match f {
            FileText::Text(t) => if kind == FileKind::Decision {
                match decision_parse(name, t@) {
                    Ok(d) => Collected { decisions: c.decisions.push(d), ..c },
                    Err(m) => Collected {
                        warnings: c.warnings.push("skipped "@ + name + ": "@ + m),
                        ..c
                    },
                }
            } else {
                match worker_parse(t@) {
                    Ok(w) => Collected { workers: c.workers.push(w), ..c },
                    Err(m) => Collected {
                        warnings: c.warnings.push("skipped "@ + name + ": "@ + m),
                        ..c
                    },
                }
            },
            FileText::Unreadable(e) => Collected {
                warnings: c.warnings.push("skipped "@ + name + ": io error: "@ + e@),
                ..c
            },
            FileText::Missing => Collected {
                warnings: c.warnings.push("skipped "@ + name + ": not found"@),
                ..c
            },
        }
    }
}

pub open spec fn collect_files(files: Seq<(String, FileText)>) -> Collected
    decreases files.len(),
{
    if files.len() == 0 {
        Collected { decisions: Seq::empty(), workers: Seq::empty(), warnings: Seq::empty() }
    } else {
        collect_file(collect_files(files.drop_last()), files.last().0@, files.last().1)
    }
}

pub open spec fn decisions_view(v: Seq<Decision>) -> Seq<DecisionView> {
    v.map_values(|d: Decision| d@)
}

pub open spec fn workers_view(v: Seq<Worker>) -> Seq<WorkerView> {
    v.map_values(|w: Worker| w@)
}

fn warn(warnings: &mut Vec<String>, a: &str, b: &str, c: &str, d: &str)
    ensures
        sv(final(warnings)@) == sv(old(warnings)@).push(a@ + b@ + c@ + d@),
{
    let mut m = String::new();
    m.append(a);
    m.append(b);
    m.append(c);
    m.append(d);
    let ghost before = warnings@;
    warnings.push(m);
    assert(sv(warnings@) =~= sv(before).push(m@));
}

/// The document in `read`, or an empty one titled `title` with a warning.
fn load_doc(file: &str, title: &str, read: &FileText, warnings: &mut Vec<String>) -> (d: MdDoc)
    ensures
        d@ == doc_load(file@, title@, *read).0,
        sv(final(warnings)@) == sv(old(warnings)@) + doc_load(file@, title@, *read).1,
{
    proof {
        reveal_strlit("");
    }
    let empty = MdDoc { title: String::from_str(title), fields: Vec::new(), preamble: String::new(), sections: Vec::new() };
    proof {
        assert(super::md::pairs_view(empty.fields@) =~= Seq::<super::md::TextPair>::empty());
        assert(super::md::sections_view(empty.sections@) =~= Seq::<super::md::TextPair>::empty());
        reveal_strlit("");
        assert(empty@ =~= titled(title@));
    }
    match read {
        FileText::Text(t) => match MdDoc::parse(t.as_str()) {
            Ok(d) => {
                assert(sv(warnings@) + Seq::<Seq<char>>::empty() =~= sv(warnings@));
                d
            },
            Err(_) => {
                let ghost before = sv(warnings@);
                warn(warnings, file, " could not be parsed: invalid markdown: missing '# ' title", "", "");
                assert(sv(warnings@) =~= before + doc_load(file@, title@, *read).1);
                empty
            },
        },
        FileText::Missing => {
            let ghost before = sv(warnings@);
            warn(warnings, file, " not found", "", "");
            assert(sv(warnings@) =~= before + doc_load(file@, title@, *read).1);
            empty
        },
        FileText::Unreadable(e) => {
            let ghost before = sv(warnings@);
            warn(warnings, "cannot read ", file, ": ", e.as_str());
            assert(sv(warnings@) =~= before + doc_load(file@, title@, *read).1);
            empty
        },
    }
}

/// Names of the decision and worker files among `names`, sorted; names
/// starting with `.` are left out.
pub fn snapshot_file_names(names: Vec<String>) -> (r: Vec<String>)
    ensures
        sorted_by_key(r@),
        r@.to_multiset() == names@.filter(|n: String| wanted_name(n@)).to_multiset(),
{
    let mut kept: Vec<String> = Vec::new();
    let ghost f = |n: String| wanted_name(n@);
    let mut i: usize = 0;
    proof {
        reveal(Seq::filter);
        assert(names@.take(0) =~= Seq::<String>::empty());
    }
    while i < names.len()
        invariant
            i <= names.len(),
            f == (|n: String| wanted_name(n@)),
            kept@ == names@.take(i as int).filter(f),
        decreases names.len() - i,
    {
        proof {
            reveal(Seq::filter);
            assert(names@.take(i + 1).drop_last() =~= names@.take(i as int));
            assert(names@.take(i + 1).last() == names@[i as int]);
        }
        let v = chars_of(names[i].as_str());
        let hidden = v.len() > 0 && v[0] == '.';
        let kind = classify_file(names[i].as_str());
        let wanted = !hidden && (match kind {
            FileKind::Decision | FileKind::Worker => true,
            _ => false,
        });
        if wanted {
            kept.push(names[i].clone());
        }
        i = i + 1;
    }
    assert(names@.take(names.len() as int) =~= names@);
    sort_by_key(kept)
}

/// A decision or worker file name not starting with `.`.
pub open spec fn wanted_name(n: Seq<char>) -> bool {
    !(n.len() > 0 && n[0] == '.') && (kind_of(n) == FileKind::Decision || kind_of(n) == FileKind::Worker)
}

impl ContextSnapshot {
    /// The snapshot of the files read. Only the meta file is required; a
    /// broken or missing project, architecture, decision or worker file is
    /// reported in `warnings` so that one bad file does not hide the rest.
    /// Decisions come sorted by id and workers by (name, id).
    pub fn assemble(
        meta: Meta,
        project: FileText,
        architecture: FileText,
        files: Vec<(String, FileText)>,
    ) -> (r: ContextSnapshot)
        ensures
            r.meta == meta,
            r.project@ == doc_load("10-project.md"@, "Project"@, project).0,
            r.architecture@ == doc_load("20-architecture.md"@, "Architecture"@, architecture).0,
            decisions_view(r.decisions@).to_multiset() == collect_files(files@).decisions.to_multiset(),
            sorted_by_key(r.decisions@),
            workers_view(r.workers@).to_multiset() == collect_files(files@).workers.to_multiset(),
            sorted_by_key(r.workers@),
            sv(r.warnings@) == doc_load("10-project.md"@, "Project"@, project).1 + doc_load(
                "20-architecture.md"@,
                "Architecture"@,
                architecture,
            ).1 + collect_files(files@).warnings,
    {
        let mut warnings: Vec<String> = Vec::new();
        let p = load_doc("10-project.md", "Project", &project, &mut warnings);
        let a = load_doc("20-architecture.md", "Architecture", &architecture, &mut warnings);
        let ghost doc_warnings = sv(warnings@);
        let mut decisions: Vec<Decision> = Vec::new();
        let mut workers: Vec<Worker> = Vec::new();
        let mut i: usize = 0;
        proof {
            assert(files@.take(0) =~= Seq::<(String, FileText)>::empty());
            assert(decisions_view(decisions@) =~= Seq::<DecisionView>::empty());
            assert(workers_view(workers@) =~= Seq::<WorkerView>::empty());
            assert(doc_warnings + Seq::<Seq<char>>::empty() =~= doc_warnings);
        }
        while i < files.len()
            invariant
                i <= files.len(),
                decisions_view(decisions@) == collect_files(files@.take(i as int)).decisions,
                workers_view(workers@) == collect_files(files@.take(i as int)).workers,
                sv(warnings@) == doc_warnings + collect_files(files@.take(i as int)).warnings,
            decreases files.len() - i,
        {
            proof {
                assert(files@.take(i + 1).drop_last() =~= files@.take(i as int));
                assert(files@.take(i + 1).last() == files@[i as int]);
            }
            let name = files[i].0.as_str();
            let kind = classify_file(name);
            let relevant = match kind {
                FileKind::Decision | FileKind::Worker => true,
                _ => false,
            };
            let ghost before_w = sv(warnings@);
            let ghost c = collect_files(files@.take(i as int));
            if relevant {
                match &files[i].1 {
                    FileText::Text(t) => {
                        let is_decision = match kind {
                            FileKind::Decision => true,
                            _ => false,
                        };
                        if is_decision {
                            match Decision::parse(name, t.as_str()) {
                                Ok(d) => {
                                    let ghost before = decisions@;
                                    decisions.push(d);
                                    assert(decisions_view(decisions@) =~= decisions_view(before).push(d@));
                                },
                                Err(e) => {
                                    let m = e.message();
                                    warn(&mut warnings, "skipped ", name, ": ", m.as_str());
                                    assert(sv(warnings@) =~= doc_warnings + c.warnings.push("skipped "@ + name@ + ": "@ + m@));
                                },
                            }
                        } else {
                            match Worker::parse(t.as_str()) {
                                Ok(w) => {
                                    let ghost before = workers@;
                                    workers.push(w);
                                    assert(workers_view(workers@) =~= workers_view(before).push(w@));
                                },
                                Err(e) => {
                                    let m = e.message();
                                    warn(&mut warnings, "skipped ", name, ": ", m.as_str());
                                    assert(sv(warnings@) =~= doc_warnings + c.warnings.push("skipped "@ + name@ + ": "@ + m@));
                                },
                            }
                        }
                    },
                    FileText::Unreadable(e) => {
                        warn(&mut warnings, "skipped ", name, ": io error: ", e.as_str());
                        assert(sv(warnings@) =~= doc_warnings + c.warnings.push("skipped "@ + name@ + ": io error: "@ + e@));
                    },
                    FileText::Missing => {
                        warn(&mut warnings, "skipped ", name, ": not found", "");
                        proof {
                            reveal_strlit("");
                        }
                        assert(sv(warnings@) =~= doc_warnings + c.warnings.push("skipped "@ + name@ + ": not found"@));
                    },
                }
            }
            i = i + 1;
        }
        assert(files@.take(files.len() as int) =~= files@);
        let ghost dec_unsorted = decisions@;
        let ghost wk_unsorted = workers@;
        let decisions = sort_by_key(decisions);
        let workers = sort_by_key(workers);
        proof {
            crate::order::lemma_multiset_map(decisions@, dec_unsorted, |d: Decision| d@);
            crate::order::lemma_multiset_map(workers@, wk_unsorted, |w: Worker| w@);
            assert(decisions_view(decisions@) =~= decisions@.map_values(|d: Decision| d@));
        }
        ContextSnapshot { meta, project: p, architecture: a, decisions, workers, warnings }
    }
}

} // verus!
