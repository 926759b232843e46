//! Worker files (`40-worker-<short-id>.md`).
//!
//! Each worker owns exactly one file and never edits another worker's file,
//! which keeps concurrent updates free of Git conflicts. The file describes
//! the worker's *current* state; it is not a log.

use vstd::prelude::*;

use super::decision::{nonblank_field, opt_view};
use super::md::{
    copy_sections, copy_strings, fields_of_lines, fields_text, list_of, list_text, lookup, pairs_view, parse_doc,
    parse_fields, parse_list, render_fields, render_list, sections_view, DocView, MdDoc,
    MdSection, TextPair,
};
use crate::clock::{
    chrono_rfc3339_parse, parse_rfc3339, rfc3339, rfc3339_of, rfc3339_stable, string_result,
    timestamp_result, Timestamp,
};
use crate::error::Error;
use crate::ids::{hyphenated, parse_uuid, short_id, short_id_of, uuid_hyphenated, uuid_parse_str};
use crate::text::{
    chars_of, debug_str, eq_ignore_ascii_case, lines, spec_debug_str, string_of, sv, trim,
    trim_vec, vec_eq, vec_eq_ignore_ascii_case,
};

verus! {

pub const WORKER_PREFIX: &'static str = "40-worker-";

#[derive(Debug, Clone, Copy, PartialEq, Eq, Structural)]
pub enum WorkerStatus {
    Working,
    Blocked,
    Done,
    Abandoned,
}

pub open spec fn worker_status_name(s: WorkerStatus) -> Seq<char> {
    match s {
        WorkerStatus::Working => "working"@,
        WorkerStatus::Blocked => "blocked"@,
        WorkerStatus::Done => "done"@,
        WorkerStatus::Abandoned => "abandoned"@,
    }
}

/// The status named by `t`, ignoring surrounding whitespace and ASCII case.
pub open spec fn worker_status_from_text(t: Seq<char>) -> Option<WorkerStatus> {
    let w = trim(t);
    if eq_ignore_ascii_case(w, "working"@) {
        Some(WorkerStatus::Working)
    } else if eq_ignore_ascii_case(w, "blocked"@) {
        Some(WorkerStatus::Blocked)
    } else if eq_ignore_ascii_case(w, "done"@) {
        Some(WorkerStatus::Done)
    } else if eq_ignore_ascii_case(w, "abandoned"@) {
        Some(WorkerStatus::Abandoned)
    } else {
        None
    }
}

/// Working or blocked.
pub open spec fn status_active(s: WorkerStatus) -> bool {
    s == WorkerStatus::Working || s == WorkerStatus::Blocked
}

impl WorkerStatus {
    /// Working or blocked.
    pub fn is_active(&self) -> (r: bool)
        ensures
            r == status_active(*self),
    {
        match self {
            WorkerStatus::Working | WorkerStatus::Blocked => true,
            _ => false,
        }
    }

    pub fn as_str(&self) -> (r: &'static str)
        ensures
            r@ == worker_status_name(*self),
    {
        match self {
            WorkerStatus::Working => "working",
            WorkerStatus::Blocked => "blocked",
            WorkerStatus::Done => "done",
            WorkerStatus::Abandoned => "abandoned",
        }
    }

    /// Reads a status name (any ASCII case, surrounding whitespace ignored).
    pub fn parse(s: &str) -> (r: Result<WorkerStatus, Error>)
        ensures
            match r {
                Ok(st) => worker_status_from_text(s@) == Some(st),
                Err(e) => worker_status_from_text(s@) is None && (e matches Error::General(m) && m@
                    == "invalid worker status: "@ + spec_debug_str(s@)),
            },
    {
        let w = trim_vec(&chars_of(s));
        if vec_eq_ignore_ascii_case(&w, &chars_of("working")) {
            Ok(WorkerStatus::Working)
        } else if vec_eq_ignore_ascii_case(&w, &chars_of("blocked")) {
            Ok(WorkerStatus::Blocked)
        } else if vec_eq_ignore_ascii_case(&w, &chars_of("done")) {
            Ok(WorkerStatus::Done)
        } else if vec_eq_ignore_ascii_case(&w, &chars_of("abandoned")) {
            Ok(WorkerStatus::Abandoned)
        } else {
            let mut m = String::new();
            m.append("invalid worker status: ");
            let d = debug_str(s);
            m.append(d.as_str());
            Err(Error::General(m))
        }
    }
}

impl std::str::FromStr for WorkerStatus {
    type Err = Error;

    fn from_str(s: &str) -> (r: Result<WorkerStatus, Error>)
        ensures
            match r {
                Ok(st) => worker_status_from_text(s@) == Some(st),
                Err(e) => worker_status_from_text(s@) is None && (e matches Error::General(m) && m@
                    == "invalid worker status: "@ + spec_debug_str(s@)),
            },
    {
        WorkerStatus::parse(s)
    }
}

/// The contents of a worker file as character sequences.
pub ghost struct WorkerView {
    pub id: u128,
    pub name: Seq<char>,
    pub status: WorkerStatus,
    pub last_updated: Timestamp,
    pub branch: Option<Seq<char>>,
    pub commit: Option<Seq<char>>,
    pub task: Seq<char>,
    pub working_on: Seq<Seq<char>>,
    pub claims: Seq<Seq<char>>,
    pub changed: Seq<Seq<char>>,
    pub interface_changes: Seq<Seq<char>>,
    pub attention: Seq<Seq<char>>,
    pub blocked_by: Seq<Seq<char>>,
    pub summary: Seq<char>,
    pub extra_sections: Seq<TextPair>,
}

#[derive(Debug, Clone, PartialEq)]
pub struct Worker {
    pub id: u128,
    pub name: String,
    pub status: WorkerStatus,
    pub last_updated: Timestamp,
    pub branch: Option<String>,
    pub commit: Option<String>,
    pub task: String,
    pub working_on: Vec<String>,
    pub claims: Vec<String>,
    pub changed: Vec<String>,
    pub interface_changes: Vec<String>,
    pub attention: Vec<String>,
    pub blocked_by: Vec<String>,
    pub summary: String,
    /// Unknown sections, kept when the file is written back.
    pub extra_sections: Vec<MdSection>,
}

impl View for Worker {
    type V = WorkerView;

    open spec fn view(&self) -> WorkerView {
        WorkerView {
            id: self.id,
            name: self.name@,
            status: self.status,
            last_updated: self.last_updated,
            branch: opt_view(self.branch),
            commit: opt_view(self.commit),
            task: self.task@,
            working_on: sv(self.working_on@),
            claims: sv(self.claims@),
            changed: sv(self.changed@),
            interface_changes: sv(self.interface_changes@),
            attention: sv(self.attention@),
            blocked_by: sv(self.blocked_by@),
            summary: self.summary@,
            extra_sections: sections_view(self.extra_sections@),
        }
    }
}

/// A working worker with nothing recorded yet.
pub open spec fn fresh_worker(id: u128, name: Seq<char>, now: Timestamp) -> WorkerView {
    WorkerView {
        id,
        name,
        status: WorkerStatus::Working,
        last_updated: now,
        branch: None,
        commit: None,
        task: Seq::empty(),
        working_on: Seq::empty(),
        claims: Seq::empty(),
        changed: Seq::empty(),
        interface_changes: Seq::empty(),
        attention: Seq::empty(),
        blocked_by: Seq::empty(),
        summary: Seq::empty(),
        extra_sections: Seq::empty(),
    }
}

/// `40-worker-<short id>.md`.
pub open spec fn worker_file_name(id: u128) -> Seq<char> {
    "40-worker-"@ + short_id_of(id) + ".md"@
}

/// A `Repository` field value: trimmed, `None` when blank.
pub open spec fn repo_value(v: Seq<char>) -> Option<Seq<char>> {
    if trim(v).len() > 0 {
        Some(trim(v))
    } else {
        None
    }
}

/// `Branch:` and `Commit:` lines of the `Repository` section (a later one wins).
pub open spec fn absorb_repo(w: WorkerView, fs: Seq<TextPair>) -> WorkerView
    decreases fs.len(),
{
    if fs.len() == 0 {
        w
    } else {
        let prev = absorb_repo(w, fs.drop_last());
        let f = fs.last();
        if f.0 == "Branch"@ {
            WorkerView { branch: repo_value(f.1), ..prev }
        } else if f.0 == "Commit"@ {
            WorkerView { commit: repo_value(f.1), ..prev }
        } else {
            prev
        }
    }
}

/// Puts a section in its place; unknown headings are kept in order.
pub open spec fn absorb_section(w: WorkerView, sec: TextPair) -> WorkerView {
    let h = sec.0;
    let b = sec.1;
    if h == "Repository"@ {
        absorb_repo(w, fields_of_lines(lines(b)))
    } else if h == "Task"@ {
        WorkerView { task: b, ..w }
    } else if h == "Working On"@ {
        WorkerView { working_on: list_of(b), ..w }
    } else if h == "Claims"@ {
        WorkerView { claims: list_of(b), ..w }
    } else if h == "Changed"@ {
        WorkerView { changed: list_of(b), ..w }
    } else if h == "Interface Changes"@ {
        WorkerView { interface_changes: list_of(b), ..w }
    } else if h == "Attention"@ {
        WorkerView { attention: list_of(b), ..w }
    } else if h == "Blocked By"@ {
        WorkerView { blocked_by: list_of(b), ..w }
    } else if h == "Summary"@ {
        WorkerView { summary: b, ..w }
    } else {
        WorkerView { extra_sections: w.extra_sections.push(sec), ..w }
    }
}

pub open spec fn absorb_sections(w: WorkerView, secs: Seq<TextPair>) -> WorkerView
    decreases secs.len(),
{
    if secs.len() == 0 {
        w
    } else {
        absorb_section(absorb_sections(w, secs.drop_last()), secs.last())
    }
}

/// The worker written in `content`, or the error message.
pub open spec fn worker_parse(content: Seq<char>) -> Result<WorkerView, Seq<char>> {
    match parse_doc(content) {
        None => Err("invalid markdown: missing '# ' title"@),
        Some(doc) => match nonblank_field(doc.1, "ID"@) {
            None => Err("missing ID"@),
            Some(idt) => match uuid_parse_str(idt) {
                Err(e) => Err("invalid ID "@ + spec_debug_str(idt) + ": "@ + e),
                Ok(id) => match nonblank_field(doc.1, "Name"@) {
                    None => Err("missing Name"@),
                    Some(name) => match nonblank_field(doc.1, "Status"@) {
                        None => Err("missing Status"@),
                        Some(st) => match worker_status_from_text(st) {
                            None => Err("invalid worker status: "@ + spec_debug_str(st)),
                            Some(status) => match nonblank_field(doc.1, "Last Updated"@) {
                                None => Err("missing Last Updated"@),
                                Some(lu) => match timestamp_result(chrono_rfc3339_parse(lu)) {
                                    Err(e) => Err(
                                        "invalid Last Updated "@ + spec_debug_str(lu) + ": "@ + e,
                                    ),
                                    Ok(t) => Ok(
                                        absorb_sections(
                                            WorkerView {
                                                status,
                                                ..fresh_worker(id, name, t)
                                            },
                                            doc.3,
                                        ),
                                    ),
                                },
                            },
                        },
                    },
                },
            },
        },
    }
}

pub open spec fn or_empty(o: Option<Seq<char>>) -> Seq<char> {
    match o {
        Some(s) => s,
        None => Seq::empty(),
    }
}

/// The document a worker is written as. Every section is always written,
/// in a fixed order, so that the output is predictable.
pub open spec fn worker_doc(w: WorkerView) -> DocView {
    let repository = fields_text(seq![("Branch"@, or_empty(w.branch)), ("Commit"@, or_empty(w.commit))]);
    let sections = seq![
        ("Repository"@, repository),
        ("Task"@, w.task),
        ("Working On"@, list_text(w.working_on)),
        ("Claims"@, list_text(w.claims)),
        ("Changed"@, list_text(w.changed)),
        ("Interface Changes"@, list_text(w.interface_changes)),
        ("Attention"@, list_text(w.attention)),
        ("Blocked By"@, list_text(w.blocked_by)),
        ("Summary"@, w.summary),
    ] + w.extra_sections;
    (
        "Worker"@,
        seq![
            ("ID"@, uuid_hyphenated(w.id)),
            ("Name"@, w.name),
            ("Status"@, worker_status_name(w.status)),
            ("Last Updated"@, rfc3339_of(w.last_updated)),
        ],
        Seq::empty(),
        sections,
    )
}

fn field_value(doc: &MdDoc, key: &str) -> (r: Option<String>)
    ensures
        opt_view(r) == nonblank_field(doc@.1, key@),
{
    match doc.field(key) {
        Some(v) => {
            let t = trim_vec(&chars_of(v));
            if t.len() > 0 {
                Some(string_of(&t))
            } else {
                None
            }
        },
        None => None,
    }
}

fn missing(message: &str) -> (e: Error)
    ensures
        e matches Error::General(m) && m@ == message@,
{
    Error::General(String::from_str(message))
}

fn invalid_value(prefix: &str, value: &str, detail: &str) -> (e: Error)
    ensures
        e matches Error::General(m) && m@ == prefix@ + spec_debug_str(value@) + ": "@ + detail@,
{
    let mut m = String::new();
    m.append(prefix);
    let d = debug_str(value);
    m.append(d.as_str());
    m.append(": ");
    m.append(detail);
    Error::General(m)
}

fn repo_text(v: &String) -> (r: Option<String>)
    ensures
        opt_view(r) == repo_value(v@),
{
    let t = trim_vec(&chars_of(v.as_str()));
    if t.len() > 0 {
        Some(string_of(&t))
    } else {
        None
    }
}

fn opt_clone(o: &Option<String>) -> (r: Option<String>)
    ensures
        opt_view(r) == opt_view(*o),
{
    match o {
        Some(s) => Some(s.clone()),
        None => None,
    }
}

fn or_empty_string(o: &Option<String>) -> (r: String)
    ensures
        r@ == or_empty(opt_view(*o)),
{
    match o {
        Some(s) => s.clone(),
        None => String::new(),
    }
}

impl Worker {
    /// A working worker named `name` with nothing recorded yet.
    pub fn new(id: u128, name: &str, now: Timestamp) -> (w: Worker)
        ensures
            w@ == fresh_worker(id, name@, now),
    {
        let w = Worker {
            id,
            name: String::from_str(name),
            status: WorkerStatus::Working,
            last_updated: now,
            branch: None,
            commit: None,
            task: String::new(),
            working_on: Vec::new(),
            claims: Vec::new(),
            changed: Vec::new(),
            interface_changes: Vec::new(),
            attention: Vec::new(),
            blocked_by: Vec::new(),
            summary: String::new(),
            extra_sections: Vec::new(),
        };
        assert(sv(w.working_on@) =~= Seq::<Seq<char>>::empty());
        assert(sv(w.claims@) =~= Seq::<Seq<char>>::empty());
        assert(sv(w.changed@) =~= Seq::<Seq<char>>::empty());
        assert(sv(w.interface_changes@) =~= Seq::<Seq<char>>::empty());
        assert(sv(w.attention@) =~= Seq::<Seq<char>>::empty());
        assert(sv(w.blocked_by@) =~= Seq::<Seq<char>>::empty());
        assert(sections_view(w.extra_sections@) =~= Seq::<TextPair>::empty());
        assert(w@ == fresh_worker(id, name@, now));
        w
    }

    /// `40-worker-<short id>.md`.
    pub fn file_name_for(id: u128) -> (r: String)
        ensures
            r@ == worker_file_name(id),
    {
        let mut s = String::new();
        s.append(WORKER_PREFIX);
        let short = short_id(id);
        s.append(short.as_str());
        s.append(".md");
        s
    }

    pub fn file_name(&self) -> (r: String)
        ensures
            r@ == worker_file_name(self.id),
    {
        Worker::file_name_for(self.id)
    }

    /// Reads a worker file.
    pub fn parse(content: &str) -> (r: Result<Worker, Error>)
        ensures
            match r {
                Ok(w) => worker_parse(content@) == Ok::<WorkerView, Seq<char>>(w@),
                Err(e) => worker_parse(content@) matches Err(m) && (e matches Error::General(t)
                    && t@ == m),
            },
    {
        let doc = match MdDoc::parse(content) {
            Ok(d) => d,
            Err(e) => {
                return Err(e);
            },
        };
        let idt = match field_value(&doc, "ID") {
            Some(v) => v,
            None => {
                return Err(missing("missing ID"));
            },
        };
        let id = match parse_uuid(idt.as_str()) {
            Ok(id) => id,
            Err(e) => {
                return Err(invalid_value("invalid ID ", idt.as_str(), e.as_str()));
            },
        };
        let name = match field_value(&doc, "Name") {
            Some(v) => v,
            None => {
                return Err(missing("missing Name"));
            },
        };
        let st = match field_value(&doc, "Status") {
            Some(v) => v,
            None => {
                return Err(missing("missing Status"));
            },
        };
        let status = match WorkerStatus::parse(st.as_str()) {
            Ok(s) => s,
            Err(e) => {
                return Err(e);
            },
        };
        let lu = match field_value(&doc, "Last Updated") {
            Some(v) => v,
            None => {
                return Err(missing("missing Last Updated"));
            },
        };
        let last_updated = match parse_rfc3339(lu.as_str()) {
            Ok(t) => t,
            Err(e) => {
                return Err(invalid_value("invalid Last Updated ", lu.as_str(), e.as_str()));
            },
        };
        let mut w = Worker::new(id, name.as_str(), last_updated);
        w.status = status;
        let ghost base = w@;
        let ghost secs = sections_view(doc.sections@);
        proof {
            let docv = parse_doc(content@).unwrap();
            assert(doc@ == docv);
            assert(base =~= WorkerView { status, ..fresh_worker(id, name@, last_updated) });
        }
        assert(secs.take(0) =~= Seq::<TextPair>::empty());
        let mut i: usize = 0;
        while i < doc.sections.len()
            invariant
                i <= doc.sections.len(),
                secs == sections_view(doc.sections@),
                w@ == absorb_sections(base, secs.take(i as int)),
            decreases doc.sections.len() - i,
        {
            assert(secs.take(i + 1).drop_last() =~= secs.take(i as int));
            assert(secs.take(i + 1).last() == secs[i as int]);
            let h = chars_of(doc.sections[i].heading.as_str());
            let body = &doc.sections[i].body;
            if vec_eq(&h, &chars_of("Repository")) {
                let fields = parse_fields(body.as_str());
                let ghost fs = pairs_view(fields@);
                let ghost before = w@;
                assert(fs.take(0) =~= Seq::<TextPair>::empty());
                let mut k: usize = 0;
                while k < fields.len()
                    invariant
                        k <= fields.len(),
                        fs == pairs_view(fields@),
                        w@ == absorb_repo(before, fs.take(k as int)),
                    decreases fields.len() - k,
                {
                    assert(fs.take(k + 1).drop_last() =~= fs.take(k as int));
                    assert(fs.take(k + 1).last() == fs[k as int]);
                    let key = chars_of(fields[k].0.as_str());
                    if vec_eq(&key, &chars_of("Branch")) {
                        w.branch = repo_text(&fields[k].1);
                    } else if vec_eq(&key, &chars_of("Commit")) {
                        w.commit = repo_text(&fields[k].1);
                    }
                    k = k + 1;
                }
                assert(fs.take(fields.len() as int) =~= fs);
            } else if vec_eq(&h, &chars_of("Task")) {
                w.task = body.clone();
            } else if vec_eq(&h, &chars_of("Working On")) {
                w.working_on = parse_list(body.as_str());
            } else if vec_eq(&h, &chars_of("Claims")) {
                w.claims = parse_list(body.as_str());
            } else if vec_eq(&h, &chars_of("Changed")) {
                w.changed = parse_list(body.as_str());
            } else if vec_eq(&h, &chars_of("Interface Changes")) {
                w.interface_changes = parse_list(body.as_str());
            } else if vec_eq(&h, &chars_of("Attention")) {
                w.attention = parse_list(body.as_str());
            } else if vec_eq(&h, &chars_of("Blocked By")) {
                w.blocked_by = parse_list(body.as_str());
            } else if vec_eq(&h, &chars_of("Summary")) {
                w.summary = body.clone();
            } else {
                let sec = MdSection { heading: doc.sections[i].heading.clone(), body: body.clone() };
                let ghost before = w.extra_sections@;
                w.extra_sections.push(sec);
                assert(sections_view(w.extra_sections@) =~= sections_view(before).push(secs[i as int]));
            }
            i = i + 1;
        }
        assert(secs.take(doc.sections.len() as int) =~= secs);
        Ok(w)
    }

    /// The file text: `ID`, `Name`, `Status`, `Last Updated`, then every
    /// section in a fixed order, then the unknown ones.
    pub fn render(&self) -> (r: String)
        ensures
            r@ == super::md::doc_text(worker_doc(self@)),
    {
        let ghost wv = self@;
        let mut repo_fields: Vec<(String, String)> = Vec::new();
        repo_fields.push((String::from_str("Branch"), or_empty_string(&self.branch)));
        repo_fields.push((String::from_str("Commit"), or_empty_string(&self.commit)));
        assert(pairs_view(repo_fields@) =~= seq![("Branch"@, or_empty(wv.branch)), ("Commit"@, or_empty(wv.commit))]);
        let repository = render_fields(repo_fields.as_slice());
        let mut sections: Vec<MdSection> = Vec::new();
        sections.push(MdSection { heading: String::from_str("Repository"), body: repository });
        sections.push(MdSection { heading: String::from_str("Task"), body: self.task.clone() });
        sections.push(MdSection { heading: String::from_str("Working On"), body: render_list(self.working_on.as_slice()) });
        sections.push(MdSection { heading: String::from_str("Claims"), body: render_list(self.claims.as_slice()) });
        sections.push(MdSection { heading: String::from_str("Changed"), body: render_list(self.changed.as_slice()) });
        sections.push(MdSection {
            heading: String::from_str("Interface Changes"),
            body: render_list(self.interface_changes.as_slice()),
        });
        sections.push(MdSection { heading: String::from_str("Attention"), body: render_list(self.attention.as_slice()) });
        sections.push(MdSection { heading: String::from_str("Blocked By"), body: render_list(self.blocked_by.as_slice()) });
        sections.push(MdSection { heading: String::from_str("Summary"), body: self.summary.clone() });
        let ghost head = sections@;
        let mut j: usize = 0;
        while j < self.extra_sections.len()
            invariant
                j <= self.extra_sections.len(),
                sections@ == head + self.extra_sections@.take(j as int),
            decreases self.extra_sections.len() - j,
        {
            let sec = MdSection {
                heading: self.extra_sections[j].heading.clone(),
                body: self.extra_sections[j].body.clone(),
            };
            assert(sec == self.extra_sections@[j as int]);
            sections.push(sec);
            assert(head + self.extra_sections@.take(j + 1) =~= (head + self.extra_sections@.take(
                j as int,
            )).push(self.extra_sections@[j as int]));
            j = j + 1;
        }
        assert(self.extra_sections@.take(self.extra_sections.len() as int) =~= self.extra_sections@);
        assert(sections_view(sections@) =~= sections_view(head) + sections_view(self.extra_sections@));
        let mut fields: Vec<(String, String)> = Vec::new();
        fields.push((String::from_str("ID"), hyphenated(self.id)));
        fields.push((String::from_str("Name"), self.name.clone()));
        fields.push((String::from_str("Status"), String::from_str(self.status.as_str())));
        fields.push((String::from_str("Last Updated"), rfc3339(self.last_updated)));
        let doc = MdDoc { title: String::from_str("Worker"), fields, preamble: String::new(), sections };
        proof {
            reveal_strlit("");
        }
        assert(doc@ =~= worker_doc(wv));
        doc.render()
    }
}

/// A copy of `w`, field by field.
pub fn copy_worker(w: &Worker) -> (r: Worker)
    ensures
        r@ == w@,
{
    Worker {
        id: w.id,
        name: w.name.clone(),
        status: w.status,
        last_updated: w.last_updated,
        branch: opt_clone(&w.branch),
        commit: opt_clone(&w.commit),
        task: w.task.clone(),
        working_on: copy_strings(&w.working_on),
        claims: copy_strings(&w.claims),
        changed: copy_strings(&w.changed),
        interface_changes: copy_strings(&w.interface_changes),
        attention: copy_strings(&w.attention),
        blocked_by: copy_strings(&w.blocked_by),
        summary: w.summary.clone(),
        extra_sections: copy_sections(&w.extra_sections),
    }
}

} // verus!
