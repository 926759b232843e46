//! `decision add` and `decision supersede`: append a new decision file.
//!
//! Existing decision files are never modified. Replacing a decision means
//! adding a new one that lists the old one in `Supersedes:`. Pulling,
//! writing and committing happen outside the library.

use vstd::prelude::*;

use crate::clock::{chrono_date_text, compact_form, date_is_valid, Date};
use crate::error::Error;
use crate::ids::{short_id, short_id_of};
use crate::model::decision::{
    ids_view, opt_view, slug_of, slugify, valid_slug, status_name, valid_decision_id, id_text, Decision,
    DecisionId, DecisionStatus, DecisionView,
};
use crate::model::decisions::{ids_wf, next_seq_on, try_next_decision_seq};
use crate::order::{char_codes, lemma_multiset_map, seq_lt, sort_by_key, sorted_by_key, SortKey};
use crate::ops::handoff::or_keep;
use crate::secrets::{
    fields_warnings, lemma_fields_warnings_append, opt_fields, push_opt_warnings, push_warnings,
};
use crate::store::sync::SyncOutcome;
use crate::text::{chars_of, debug_str, join, join_strings, spec_debug_str, string_of, sv, trim, trim_vec};

verus! {

pub struct NewDecision {
    pub title: String,
    pub context: Option<String>,
    /// Defaults to the title.
    pub decision: Option<String>,
    pub reason: Option<String>,
    pub consequences: Option<String>,
    pub supersedes: Vec<String>,
    pub status: DecisionStatus,
}

#[derive(Debug, Clone)]
pub struct DecisionAddOutcome {
    pub id: DecisionId,
    pub file_name: String,
    pub committed: Option<String>,
    pub sync: Option<SyncOutcome>,
    pub warnings: Vec<String>,
}

/// The trimmed title of a new decision; a blank one is refused.
pub fn new_decision_title(title: &str) -> (r: Result<String, Error>)
    ensures
        match r {
            Ok(t) => t@ == trim(title@) && t@.len() > 0,
            Err(e) => trim(title@).len() == 0 && (e matches Error::InvalidConfig(m) && m@
                == "decision title is empty"@),
        },
{
    let t = trim_vec(&chars_of(title));
    if t.len() == 0 {
        Err(Error::InvalidConfig(String::from_str("decision title is empty")))
    } else {
        Ok(string_of(&t))
    }
}

/// The texts of a new decision, named as its fields.
pub open spec fn decision_fields(title: Seq<char>, input: NewDecision) -> Seq<(Seq<char>, Seq<char>)> {
    opt_fields("title"@, Some(title)) + opt_fields("context"@, opt_view(input.context))
        + opt_fields("decision"@, opt_view(input.decision))
        + opt_fields("reason"@, opt_view(input.reason))
        + opt_fields("consequences"@, opt_view(input.consequences))
}

/// Warnings for obvious credentials in a new decision (the trimmed title
/// and the given texts).
pub fn decision_secret_warnings(title: &str, input: &NewDecision) -> (r: Vec<String>)
    ensures
        sv(r@) == fields_warnings(decision_fields(title@, *input)),
{
    let mut out: Vec<String> = Vec::new();
    let t = Some(String::from_str(title));
    push_opt_warnings(&mut out, "title", &t);
    push_opt_warnings(&mut out, "context", &input.context);
    push_opt_warnings(&mut out, "decision", &input.decision);
    push_opt_warnings(&mut out, "reason", &input.reason);
    push_opt_warnings(&mut out, "consequences", &input.consequences);
    proof {
        let a = opt_fields("title"@, Some(title@));
        let b = opt_fields("context"@, opt_view(input.context));
        let c = opt_fields("decision"@, opt_view(input.decision));
        let d = opt_fields("reason"@, opt_view(input.reason));
        let e = opt_fields("consequences"@, opt_view(input.consequences));
        assert(opt_view(t) == Some(title@));
        lemma_fields_warnings_append(a, b);
        lemma_fields_warnings_append(a + b, c);
        lemma_fields_warnings_append(a + b + c, d);
        lemma_fields_warnings_append(a + b + c + d, e);
        assert(Seq::<Seq<char>>::empty() + fields_warnings(a) =~= fields_warnings(a));
        assert(sv(out@) =~= fields_warnings(a + b + c + d + e));
    }
    out
}

/// Whether a decision with ID `id` is known.
pub open spec fn known_id(ds: Seq<Decision>, id: Seq<char>) -> bool {
    exists|i: int| 0 <= i < ds.len() && ds[i].id@ == id
}

/// The superseded IDs, trimmed, in order; or the first entry that is not
/// a valid ID (`true`) or not a known decision (`false`).
pub open spec fn resolve_ids(raw: Seq<Seq<char>>, ds: Seq<Decision>) -> Result<Seq<Seq<char>>, (bool, Seq<char>)>
    decreases raw.len(),
{
    if raw.len() == 0 {
        Ok(Seq::empty())
    } else {
        match resolve_ids(raw.drop_last(), ds) {
            Err(e) => Err(e),
            Ok(ids) => {
                let t = trim(raw.last());
                if !valid_decision_id(t) {
                    Err((true, t))
                } else if !known_id(ds, t) {
                    Err((false, t))
                } else {
                    Ok(ids.push(t))
                }
            },
        }
    }
}

/// The message for an entry of `Supersedes` that cannot be used.
pub open spec fn supersede_error_text(e: (bool, Seq<char>)) -> Seq<char> {
    if e.0 {
        "invalid decision id: "@ + spec_debug_str(e.1)
    } else {
        "unknown decision id: "@ + e.1
    }
}

fn find_decision(ds: &[Decision], id: &DecisionId) -> (r: Option<usize>)
    ensures
        match r {
            Some(i) => i < ds@.len() && ds@[i as int].id@ == id@ && forall|j: int| 0 <= j < i ==> ds@[j].id@ != id@,
            None => !known_id(ds@, id@),
        },
{
    let mut i: usize = 0;
    while i < ds.len()
        invariant
            i <= ds.len(),
            forall|j: int| 0 <= j < i ==> ds@[j].id@ != id@,
        decreases ds.len() - i,
    {
        if ds[i].id.same(id) {
            return Some(i);
        }
        i = i + 1;
    }
    None
}

/// Reads the IDs of `Supersedes`, each of which must name a known decision.
pub fn resolve_supersedes(raw: &Vec<String>, decisions: &[Decision]) -> (r: Result<Vec<DecisionId>, Error>)
    ensures
        match resolve_ids(sv(raw@), decisions@) {
            Ok(ids) => r matches Ok(v) && ids_view(v@) == ids,
            Err(e) => r matches Err(Error::General(m)) && m@ == supersede_error_text(e),
        },
{
    let mut out: Vec<DecisionId> = Vec::new();
    let ghost rs = sv(raw@);
    let mut i: usize = 0;
    assert(rs.take(0) =~= Seq::<Seq<char>>::empty());
    assert(ids_view(out@) =~= Seq::<Seq<char>>::empty());
    while i < raw.len()
        invariant
            i <= raw.len(),
            rs == sv(raw@),
            resolve_ids(rs.take(i as int), decisions@) == Ok::<Seq<Seq<char>>, (bool, Seq<char>)>(ids_view(out@)),
        decreases raw.len() - i,
    {
        assert(rs.take(i + 1).drop_last() =~= rs.take(i as int));
        assert(rs.take(i + 1).last() == raw@[i as int]@);
        let t = string_of(&trim_vec(&chars_of(raw[i].as_str())));
        match DecisionId::parse(t.as_str()) {
            Err(e) => {
                assert(resolve_ids(rs.take(i + 1), decisions@) == Err::<Seq<Seq<char>>, (bool, Seq<char>)>((true, t@)));
                proof {
                    lemma_resolve_err_stays(rs, decisions@, i as int + 1);
                }
                return Err(e);
            },
            Ok(id) => {
                match find_decision(decisions, &id) {
                    None => {
                        let mut m = String::new();
                        m.append("unknown decision id: ");
                        m.append(id.as_str());
                        assert(resolve_ids(rs.take(i + 1), decisions@) == Err::<Seq<Seq<char>>, (bool, Seq<char>)>((false, t@)));
                        proof {
                            lemma_resolve_err_stays(rs, decisions@, i as int + 1);
                        }
                        return Err(Error::General(m));
                    },
                    Some(_) => {
                        let ghost before = out@;
                        out.push(id);
                        assert(ids_view(out@) =~= ids_view(before).push(t@));
                    },
                }
            },
        }
        i = i + 1;
    }
    assert(rs.take(raw.len() as int) =~= rs);
    Ok(out)
}

/// Once resolving fails, a longer list fails the same way.
proof fn lemma_resolve_err_stays(raw: Seq<Seq<char>>, ds: Seq<Decision>, k: int)
    requires
        0 <= k <= raw.len(),
        resolve_ids(raw.take(k), ds) is Err,
    ensures
        resolve_ids(raw, ds) == resolve_ids(raw.take(k), ds),
    decreases raw.len() - k,
{
    if k < raw.len() {
        assert(raw.take(k + 1).drop_last() =~= raw.take(k));
        lemma_resolve_err_stays(raw, ds, k + 1);
    } else {
        assert(raw.take(k) =~= raw);
    }
}

pub open spec fn or_empty_text(o: Option<Seq<char>>) -> Seq<char> {
    match o {
        Some(t) => t,
        None => Seq::empty(),
    }
}

/// The decision that `decision add` writes, numbered `seq` for `date`.
pub open spec fn new_decision_view(
    title: Seq<char>,
    input: NewDecision,
    ids: Seq<Seq<char>>,
    date: Date,
    seq: u32,
    author: u128,
) -> DecisionView {
    DecisionView {
        id: id_text(compact_form(date), seq, slug_of(title)),
        title,
        status: input.status,
        date,
        author: Some(short_id_of(author)),
        supersedes: ids,
        context: or_empty_text(opt_view(input.context)),
        decision: or_keep(opt_view(input.decision), title),
        reason: or_empty_text(opt_view(input.reason)),
        consequences: or_empty_text(opt_view(input.consequences)),
        extra_sections: Seq::empty(),
    }
}

/// What `decision add` produces: the decision, or the message of the error
/// (`true` for an invalid configuration, `false` for a general error).
pub open spec fn decision_plan(
    input: NewDecision,
    author: u128,
    ds: Seq<Decision>,
    date: Date,
    seq: u32,
) -> Result<DecisionView, (bool, Seq<char>)> {
    let title = trim(input.title@);
    if title.len() == 0 {
        Err((true, "decision title is empty"@))
    } else {
        match resolve_ids(sv(input.supersedes@), ds) {
            Err(e) => Err((false, supersede_error_text(e))),
            Ok(ids) => Ok(new_decision_view(title, input, ids, date, seq, author)),
        }
    }
}

pub open spec fn plan_matches(r: Result<Decision, Error>, p: Result<DecisionView, (bool, Seq<char>)>) -> bool {
    match p {
        Ok(d) => r matches Ok(x) && x@ == d,
        Err(e) => r matches Err(x) && if e.0 {
            x matches Error::InvalidConfig(m) && m@ == e.1
        } else {
            x matches Error::General(m) && m@ == e.1
        },
    }
}

/// The sequence number the next decision of `date` gets.
pub open spec fn next_seq_for(ds: Seq<Decision>, date: Date) -> int {
    next_seq_on(ds, chrono_date_text("%Y%m%d"@, date.year, date.month, date.day))
}

fn opt_text_or_empty(o: &Option<String>) -> (r: String)
    ensures
        r@ == or_empty_text(opt_view(*o)),
{
    match o {
        Some(s) => s.clone(),
        None => String::new(),
    }
}

fn build_decision(title: String, input: &NewDecision, ids: Vec<DecisionId>, date: Date, seq: u32, author: u128) -> (r: Decision)
    requires
        date_is_valid(date),
        0 <= date.year <= 9999,
    ensures
        r@ == new_decision_view(title@, *input, ids_view(ids@), date, seq, author),
        valid_slug(slug_of(title@)),
{
    let slug = slugify(title.as_str());
    let id = DecisionId::new(date, seq, slug.as_str());
    let decision = match &input.decision {
        Some(d) => d.clone(),
        None => title.clone(),
    };
    let r = Decision {
        id,
        title,
        status: input.status,
        date,
        author: Some(short_id(author)),
        supersedes: ids,
        context: opt_text_or_empty(&input.context),
        decision,
        reason: opt_text_or_empty(&input.reason),
        consequences: opt_text_or_empty(&input.consequences),
        extra_sections: Vec::new(),
    };
    assert(crate::model::md::sections_view(r.extra_sections@) =~= Seq::<crate::model::md::TextPair>::empty());
    r
}

/// The decision `decision add` writes for `input` on `date`, by the worker
/// `author`, given the known `decisions`: numbered after the largest number
/// of that day.
pub fn plan_decision(input: &NewDecision, author: u128, decisions: &[Decision], date: Date) -> (r: Result<Decision, Error>)
    requires
        date_is_valid(date),
        0 <= date.year <= 9999,
        ids_wf(decisions@),
        next_seq_for(decisions@, date) <= u32::MAX,
    ensures
        plan_matches(r, decision_plan(*input, author, decisions@, date, next_seq_for(decisions@, date) as u32)),
        r matches Ok(d) ==> forall|i: int| 0 <= i < decisions@.len() ==> (#[trigger] decisions@[i]).id@ != d.id@,
{
    let seq = crate::model::decisions::next_decision_seq(decisions, date);
    let day = crate::clock::compact_date_text(date);
    let r = finish_plan(input, author, decisions, date, seq);
    proof {
        if let Ok(d) = &r {
            assert forall|i: int| 0 <= i < decisions@.len() implies (#[trigger] decisions@[i]).id@ != d.id@ by {
                let t = trim(input.title@);
                let text = id_text(compact_form(date), seq, slug_of(t));
                assert(d.id@ == text);
                crate::clock::lemma_date_forms(date);
                crate::model::decision::lemma_id_text(compact_form(date), seq, slug_of(t));
                if decisions@[i].id@ == text {
                    assert(text.subrange(0, 8) =~= compact_form(date));
                    crate::model::decisions::lemma_next_seq_above(decisions@, compact_form(date), i);
                }
            }
        }
    }
    r
}

fn finish_plan(input: &NewDecision, author: u128, decisions: &[Decision], date: Date, seq: u32) -> (r: Result<Decision, Error>)
    requires
        date_is_valid(date),
        0 <= date.year <= 9999,
    ensures
        plan_matches(r, decision_plan(*input, author, decisions@, date, seq)),
        r is Ok ==> valid_slug(slug_of(trim(input.title@))),
{
    let title = match new_decision_title(input.title.as_str()) {
        Ok(t) => t,
        Err(e) => {
            return Err(e);
        },
    };
    let ids = match resolve_supersedes(&input.supersedes, decisions) {
        Ok(ids) => ids,
        Err(e) => {
            return Err(e);
        },
    };
    Ok(build_decision(title, input, ids, date, seq, author))
}

/// `plan_decision` when the day still has a sequence number left; `None`
/// when its numbers are used up.
pub fn try_plan_decision(input: &NewDecision, author: u128, decisions: &[Decision], date: Date) -> (r: Option<Result<Decision, Error>>)
    requires
        date_is_valid(date),
        0 <= date.year <= 9999,
        ids_wf(decisions@),
    ensures
        match r {
            None => next_seq_for(decisions@, date) > u32::MAX,
            Some(x) => next_seq_for(decisions@, date) <= u32::MAX && plan_matches(
                x,
                decision_plan(*input, author, decisions@, date, next_seq_for(decisions@, date) as u32),
            ) && (x matches Ok(d) ==> forall|i: int| 0 <= i < decisions@.len() ==> (#[trigger] decisions@[i]).id@ != d.id@),
        },
{
    match try_next_decision_seq(decisions, date) {
        None => None,
        Some(_) => Some(plan_decision(input, author, decisions, date)),
    }
}

/// `ctx-sync: decision <id>`.
pub fn decision_commit_message(id: &DecisionId) -> (r: String)
    ensures
        r@ == "ctx-sync: decision "@ + id@,
{
    let mut s = String::new();
    s.append("ctx-sync: decision ");
    s.append(id.as_str());
    s
}

/// `<file> already exists`, for a decision file that is already there.
pub fn existing_file_error(file_name: &str) -> (e: Error)
    ensures
        e matches Error::General(m) && m@ == file_name@ + " already exists"@,
{
    let mut m = String::new();
    m.append(file_name);
    m.append(" already exists");
    Error::General(m)
}

// ---------------------------------------------------------------------------
// Superseding
// ---------------------------------------------------------------------------

/// Whether `ids` holds `id`.
pub open spec fn lists_id(ids: Seq<Seq<char>>, id: Seq<char>) -> bool {
    exists|i: int| 0 <= i < ids.len() && ids[i] == id
}

/// The IDs of the decisions that list `id` in `Supersedes`, in file order.
pub open spec fn superseders(ds: Seq<Decision>, id: Seq<char>) -> Seq<Seq<char>>
    decreases ds.len(),
{
    if ds.len() == 0 {
        Seq::empty()
    } else if lists_id(ids_view(ds.last().supersedes@), id) {
        superseders(ds.drop_last(), id).push(ds.last().id@)
    } else {
        superseders(ds.drop_last(), id)
    }
}

/// No text comes after one that sorts above it.
pub open spec fn texts_sorted(s: Seq<Seq<char>>) -> bool {
    forall|i: int, j: int| 0 <= i < j < s.len() ==> !seq_lt(char_codes(#[trigger] s[j]), char_codes(#[trigger] s[i]))
}

/// The warning for replacing `old` when some decisions (`by`, sorted)
/// already supersede it, or when it is not accepted.
pub open spec fn supersede_warning_text(old: Seq<char>, by: Seq<Seq<char>>, status: DecisionStatus) -> Option<Seq<char>> {
    if by.len() > 0 {
        Some("decision "@ + old + " is not effective (superseded by "@ + join(by, ", "@) + ")"@)
    } else if status != DecisionStatus::Accepted {
        Some("decision "@ + old + " is not effective (status "@ + status_name(status) + ")"@)
    } else {
        None
    }
}

/// The first decision whose ID is `id`.
pub open spec fn first_with_id(ds: Seq<Decision>, id: Seq<char>) -> int {
    choose|i: int| 0 <= i < ds.len() && ds[i].id@ == id && forall|j: int| 0 <= j < i ==> ds[j].id@ != id
}

fn ids_listing(decisions: &[Decision], id: &DecisionId) -> (r: Vec<String>)
    ensures
        sv(r@) == superseders(decisions@, id@),
{
    let ghost ds = decisions@;
    let mut out: Vec<String> = Vec::new();
    let mut i: usize = 0;
    assert(ds.take(0) =~= Seq::<Decision>::empty());
    while i < decisions.len()
        invariant
            i <= decisions.len(),
            ds == decisions@,
            sv(out@) == superseders(ds.take(i as int), id@),
        decreases decisions.len() - i,
    {
        assert(ds.take(i + 1).drop_last() =~= ds.take(i as int));
        assert(ds.take(i + 1).last() == decisions@[i as int]);
        let d = &decisions[i];
        let mut found = false;
        let mut k: usize = 0;
        while k < d.supersedes.len()
            invariant
                k <= d.supersedes.len(),
                found == exists|j: int| 0 <= j < k && ids_view(d.supersedes@)[j] == id@,
            decreases d.supersedes.len() - k,
        {
            assert(ids_view(d.supersedes@)[k as int] == d.supersedes@[k as int]@);
            if d.supersedes[k].same(id) {
                found = true;
            }
            k = k + 1;
        }
        if found {
            let s = String::from_str(d.id.as_str());
            let ghost before = out@;
            out.push(s);
            assert(sv(out@) =~= sv(before).push(d.id@));
        }
        i = i + 1;
    }
    assert(ds.take(decisions.len() as int) =~= ds);
    out
}

fn find_by_text(ds: &[Decision], id: &str) -> (r: Option<usize>)
    ensures
        match r {
            Some(i) => i < ds@.len() && ds@[i as int].id@ == id@ && forall|j: int| 0 <= j < i ==> ds@[j].id@ != id@,
            None => !known_id(ds@, id@),
        },
{
    let mut i: usize = 0;
    while i < ds.len()
        invariant
            i <= ds.len(),
            forall|j: int| 0 <= j < i ==> ds@[j].id@ != id@,
        decreases ds.len() - i,
    {
        if crate::text::str_eq(id, &chars_of(ds[i].id.as_str())) {
            return Some(i);
        }
        i = i + 1;
    }
    None
}

/// The warning `decision supersede` adds for the old decision `old`; an
/// unknown `old` is an error.
pub fn supersede_warning(old: &str, decisions: &[Decision]) -> (r: Result<Option<String>, Error>)
    ensures
        !known_id(decisions@, old@) <==> r is Err,
        r matches Err(e) ==> (e matches Error::General(m) && m@ == "unknown decision id: "@ + old@),
        r matches Ok(w) ==> exists|by: Seq<Seq<char>>| #![trigger texts_sorted(by)]
            texts_sorted(by) && by.to_multiset() == superseders(decisions@, old@).to_multiset()
                && opt_view(w) == supersede_warning_text(
                old@,
                by,
                decisions@[first_with_id(decisions@, old@)].status,
            ),
{
    let found = find_by_text(decisions, old);
    let at = match found {
        None => {
            let mut m = String::new();
            m.append("unknown decision id: ");
            m.append(old);
            return Err(Error::General(m));
        },
        Some(at) => at,
    };
    assert(first_with_id(decisions@, old@) == at as int) by {
        assert(decisions@[at as int].id@ == old@);
    }
    let od = &decisions[at];
    let listing = ids_listing(decisions, &od.id);
    let sorted = sort_by_key(listing);
    proof {
        lemma_multiset_map(sorted@, listing@, |s: String| s@);
        assert(sv(sorted@) == sorted@.map_values(|s: String| s@));
        assert forall|a: int, b: int| 0 <= a < b < sv(sorted@).len() implies !seq_lt(
            char_codes(#[trigger] sv(sorted@)[b]),
            char_codes(#[trigger] sv(sorted@)[a]),
        ) by {
            assert(sorted@[b].sort_key() == char_codes(sv(sorted@)[b]));
            assert(sorted@[a].sort_key() == char_codes(sv(sorted@)[a]));
        }
    }
    let w = if sorted.len() > 0 {
        let mut m = String::new();
        m.append("decision ");
        m.append(old);
        m.append(" is not effective (superseded by ");
        let list = join_strings(&sorted, ", ");
        m.append(list.as_str());
        m.append(")");
        Some(m)
    } else if od.status != DecisionStatus::Accepted {
        let mut m = String::new();
        m.append("decision ");
        m.append(old);
        m.append(" is not effective (status ");
        m.append(od.status.as_str());
        m.append(")");
        Some(m)
    } else {
        None
    };
    assert(texts_sorted(sv(sorted@)));
    Ok(w)
}

/// Whether `v` holds `x`.
fn holds(v: &Vec<String>, x: &str) -> (r: bool)
    ensures
        r == lists_id(sv(v@), x@),
{
    let mut i: usize = 0;
    while i < v.len()
        invariant
            i <= v.len(),
            forall|j: int| 0 <= j < i ==> sv(v@)[j] != x@,
        decreases v.len() - i,
    {
        if crate::text::str_eq(x, &chars_of(v[i].as_str())) {
            assert(sv(v@)[i as int] == x@);
            return true;
        }
        i = i + 1;
    }
    false
}

/// The `Supersedes` list of a replacement for `old`: `old` first unless
/// it is listed already.
pub fn supersedes_with(old: &str, supersedes: Vec<String>) -> (r: Vec<String>)
    ensures
        sv(r@) == if lists_id(sv(supersedes@), old@) {
            sv(supersedes@)
        } else {
            seq![old@] + sv(supersedes@)
        },
{
    if holds(&supersedes, old) {
        supersedes
    } else {
        let mut v = supersedes;
        let ghost before = v@;
        v.insert(0, String::from_str(old));
        assert(sv(v@) =~= seq![old@] + sv(before));
        v
    }
}

/// `decision add` plans a decision exactly when the trimmed title is not
/// empty and every superseded decision is found; the planned decision has
/// the trimmed title, the given status, the day and the author's short ID,
/// supersedes the resolved IDs, and holds each given section text as given:
/// the decision text defaults to the title, the others to empty text.
pub proof fn lemma_planned_decision_fields(input: NewDecision, author: u128, ds: Seq<Decision>, date: Date, seq: u32)
    ensures
        decision_plan(input, author, ds, date, seq) is Ok <==> (trim(input.title@).len() > 0 && resolve_ids(
            sv(input.supersedes@),
            ds,
        ) is Ok),
        decision_plan(input, author, ds, date, seq) matches Ok(d) ==> {
            &&& d.title == trim(input.title@)
            &&& d.status == input.status
            &&& d.date == date
            &&& d.author == Some(short_id_of(author))
            &&& resolve_ids(sv(input.supersedes@), ds) == Ok::<Seq<Seq<char>>, (bool, Seq<char>)>(d.supersedes)
            &&& (input.decision matches Some(t) ==> d.decision == t@)
            &&& (input.decision is None ==> d.decision == trim(input.title@))
            &&& (input.context matches Some(t) ==> d.context == t@)
            &&& (input.context is None ==> d.context.len() == 0)
            &&& (input.reason matches Some(t) ==> d.reason == t@)
            &&& (input.reason is None ==> d.reason.len() == 0)
            &&& (input.consequences matches Some(t) ==> d.consequences == t@)
            &&& (input.consequences is None ==> d.consequences.len() == 0)
            &&& d.extra_sections.len() == 0
        },
{
}

} // verus!
