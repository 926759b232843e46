//! Calculations over the set of decisions.
//!
//! Supersession is derived here instead of rewriting the old decision's
//! `Status`, because decision files are append-only.

use vstd::prelude::*;

use super::decision::{
    decision_wf, id_parts, id_seq, id_text, valid_decision_id, Decision, DecisionId, DecisionStatus,
    DecisionView,
};
use crate::clock::{chrono_date_text, compact_date_text, date_is_valid, Date};
use crate::order::{char_codes, seq_lt, sort_by_key, sorted_by_key, text_before, SortKey};
use crate::text::{chars_of, vec_eq};

verus! {

broadcast use vstd::seq_lib::group_to_multiset_ensures;

impl<'a> SortKey for &'a Decision {
    open spec fn sort_key(&self) -> Seq<int> {
        char_codes((**self).id@)
    }

    fn key_before(&self, other: &Self) -> (r: bool) {
        text_before(&chars_of(self.id.as_str()), &chars_of(other.id.as_str()))
    }
}

/// Whether some decision lists `id` in `Supersedes:`.
pub open spec fn is_superseded(ds: Seq<Decision>, id: Seq<char>) -> bool {
    exists|i: int, k: int|
        0 <= i < ds.len() && 0 <= k < ds[i].supersedes@.len() && #[trigger] ds[i].supersedes@[k]@
            == id
}

/// Accepted and not superseded.
pub open spec fn is_effective(ds: Seq<Decision>, d: Decision) -> bool {
    d.status == DecisionStatus::Accepted && !is_superseded(ds, d.id@)
}

/// The effective decisions of `all` among `s`, in order.
pub open spec fn effective_among(all: Seq<Decision>, s: Seq<Decision>) -> Seq<Decision>
    decreases s.len(),
{
    if s.len() == 0 {
        Seq::empty()
    } else {
        let r = effective_among(all, s.drop_last());
        if is_effective(all, s.last()) {
            r.push(s.last())
        } else {
            r
        }
    }
}

pub open spec fn derefs<'a>(s: Seq<&'a Decision>) -> Seq<Decision> {
    s.map_values(|d: &'a Decision| *d)
}

fn listed(ds: &[Decision], id: &DecisionId) -> (r: bool)
    ensures
        r == is_superseded(ds@, id@),
{
    let mut i: usize = 0;
    while i < ds.len()
        invariant
            i <= ds.len(),
            forall|a: int, k: int|
                0 <= a < i && 0 <= k < ds@[a].supersedes@.len() ==> #[trigger] ds@[a].supersedes@[k]@
                    != id@,
        decreases ds.len() - i,
    {
        let mut k: usize = 0;
        while k < ds[i].supersedes.len()
            invariant
                i < ds.len(),
                k <= ds@[i as int].supersedes@.len(),
                forall|j: int| 0 <= j < k ==> #[trigger] ds@[i as int].supersedes@[j]@ != id@,
            decreases ds[i as int].supersedes@.len() - k,
        {
            if ds[i].supersedes[k].same(id) {
                return true;
            }
            k = k + 1;
        }
        i = i + 1;
    }
    false
}

/// Accepted decisions that no other decision supersedes, sorted by id.
pub fn effective_decisions<'a>(decisions: &'a [Decision]) -> (r: Vec<&'a Decision>)
    ensures
        derefs(r@).to_multiset() == effective_among(decisions@, decisions@).to_multiset(),
        sorted_by_key(r@),
{
    let mut found: Vec<&'a Decision> = Vec::new();
    let mut i: usize = 0;
    while i < decisions.len()
        invariant
            i <= decisions.len(),
            derefs(found@) == effective_among(decisions@, decisions@.take(i as int)),
        decreases decisions.len() - i,
    {
        assert(decisions@.take(i + 1).drop_last() =~= decisions@.take(i as int));
        assert(decisions@.take(i + 1).last() == decisions@[i as int]);
        let d = &decisions[i];
        let accepted = match d.status {
            DecisionStatus::Accepted => true,
            _ => false,
        };
        if accepted && !listed(decisions, &d.id) {
            let ghost before = found@;
            found.push(d);
            assert(derefs(found@) =~= derefs(before).push(*d));
        }
        i = i + 1;
    }
    assert(decisions@.take(decisions.len() as int) =~= decisions@);
    let sorted = sort_by_key(found);
    proof {
        lemma_derefs_multiset(sorted@, found@);
    }
    sorted
}

proof fn lemma_derefs_multiset<'a>(a: Seq<&'a Decision>, b: Seq<&'a Decision>)
    requires
        a.to_multiset() == b.to_multiset(),
    ensures
        derefs(a).to_multiset() == derefs(b).to_multiset(),
{
    crate::order::lemma_multiset_map(a, b, |d: &'a Decision| *d);
}

// ---------------------------------------------------------------------------
// Sequence numbers
// ---------------------------------------------------------------------------

pub open spec fn ids_wf(ds: Seq<Decision>) -> bool {
    forall|i: int| 0 <= i < ds.len() ==> valid_decision_id(#[trigger] ds[i].id@)
}

/// The sequence numbers of the decisions whose ID starts with `date`.
pub open spec fn seqs_on(ds: Seq<Decision>, date: Seq<char>) -> Seq<int>
    decreases ds.len(),
{
    if ds.len() == 0 {
        Seq::empty()
    } else {
        let r = seqs_on(ds.drop_last(), date);
        let id = ds.last().id@;
        if id.subrange(0, 8) == date {
            r.push(id_seq(id))
        } else {
            r
        }
    }
}

/// The largest element, 0 for none.
pub open spec fn max_or_zero(s: Seq<int>) -> int
    decreases s.len(),
{
    if s.len() == 0 {
        0
    } else {
        let m = max_or_zero(s.drop_last());
        if s.last() > m {
            s.last()
        } else {
            m
        }
    }
}

/// The largest number used on `date` plus 1, or 1.
pub open spec fn next_seq_on(ds: Seq<Decision>, date: Seq<char>) -> int {
    let s = seqs_on(ds, date);
    if s.len() == 0 {
        1
    } else {
        max_or_zero(s) + 1
    }
}

proof fn lemma_max_ge(s: Seq<int>, k: int)
    requires
        0 <= k < s.len(),
    ensures
        s[k] <= max_or_zero(s),
    decreases s.len(),
{
    if k < s.len() - 1 {
        lemma_max_ge(s.drop_last(), k);
    }
}

proof fn lemma_seqs_on_has(ds: Seq<Decision>, date: Seq<char>, i: int)
    requires
        0 <= i < ds.len(),
        ds[i].id@.subrange(0, 8) == date,
    ensures
        exists|k: int| 0 <= k < seqs_on(ds, date).len() && seqs_on(ds, date)[k] == id_seq(ds[i].id@),
    decreases ds.len(),
{
    let r = seqs_on(ds.drop_last(), date);
    if i == ds.len() - 1 {
        assert(seqs_on(ds, date) == r.push(id_seq(ds[i].id@)));
        assert(seqs_on(ds, date)[r.len() as int] == id_seq(ds[i].id@));
    } else {
        assert(ds.drop_last()[i] == ds[i]);
        lemma_seqs_on_has(ds.drop_last(), date, i);
        let k = choose|k: int| 0 <= k < r.len() && r[k] == id_seq(ds[i].id@);
        if ds.last().id@.subrange(0, 8) == date {
            assert(seqs_on(ds, date) == r.push(id_seq(ds.last().id@)));
            assert(seqs_on(ds, date)[k] == r[k]);
        } else {
            assert(seqs_on(ds, date) == r);
        }
        assert(0 <= k < seqs_on(ds, date).len() && seqs_on(ds, date)[k] == id_seq(ds[i].id@));
    }
}

/// A decision of `date` has a number below the next one of that date.
pub proof fn lemma_next_seq_above(ds: Seq<Decision>, date: Seq<char>, i: int)
    requires
        0 <= i < ds.len(),
        ds[i].id@.subrange(0, 8) == date,
    ensures
        id_seq(ds[i].id@) < next_seq_on(ds, date),
{
    lemma_seqs_on_has(ds, date, i);
    let k = choose|k: int| 0 <= k < seqs_on(ds, date).len() && seqs_on(ds, date)[k] == id_seq(ds[i].id@);
    lemma_max_ge(seqs_on(ds, date), k);
}

/// Whether any decision uses `date`, and the largest number on it.
fn day_max(decisions: &[Decision], day: &[char]) -> (r: (bool, u32))
    requires
        ids_wf(decisions@),
    ensures
        r.0 == (seqs_on(decisions@, day@).len() > 0),
        r.1 == max_or_zero(seqs_on(decisions@, day@)),
{
    let ghost ds = decisions@;
    let mut found = false;
    let mut max: u32 = 0;
    let mut i: usize = 0;
    while i < decisions.len()
        invariant
            i <= decisions.len(),
            ds == decisions@,
            ids_wf(ds),
            found == (seqs_on(ds.take(i as int), day@).len() > 0),
            max == max_or_zero(seqs_on(ds.take(i as int), day@)),
        decreases decisions.len() - i,
    {
        assert(ds.take(i + 1).drop_last() =~= ds.take(i as int));
        assert(ds.take(i + 1).last() == ds[i as int]);
        assert(valid_decision_id(ds[i as int].id@));
        let d = chars_of(decisions[i].id.date_str());
        let ghost prev = seqs_on(ds.take(i as int), day@);
        if vec_eq(&d, day) {
            let n = decisions[i].id.seq();
            assert(seqs_on(ds.take(i + 1), day@) == prev.push(n as int));
            assert(prev.push(n as int).drop_last() =~= prev);
            found = true;
            if n > max {
                max = n;
            }
        } else {
            assert(seqs_on(ds.take(i + 1), day@) == prev);
        }
        i = i + 1;
    }
    assert(ds.take(decisions.len() as int) =~= ds);
    (found, max)
}

/// Next sequence number for `date`: the largest existing one plus 1 (1 when
/// there is none).
///
/// Looking at every existing ID of the date means a new ID never collides
/// with one that is already known locally. Duplicates created concurrently
/// by other workers are reported by [`duplicate_decision_seqs`].
pub fn next_decision_seq(decisions: &[Decision], date: Date) -> (r: u32)
    requires
        date_is_valid(date),
        ids_wf(decisions@),
        next_seq_on(decisions@, chrono_date_text("%Y%m%d"@, date.year, date.month, date.day))
            <= u32::MAX,
    ensures
        r == next_seq_on(decisions@, chrono_date_text("%Y%m%d"@, date.year, date.month, date.day)),
{
    let day = compact_date_text(date);
    let (found, max) = day_max(decisions, &chars_of(day.as_str()));
    proof {
        lemma_max_nonneg(seqs_on(decisions@, day@));
    }
    if found {
        max + 1
    } else {
        1
    }
}

/// [`next_decision_seq`], or `None` when the largest number used on `date`
/// is already `u32::MAX`.
pub fn try_next_decision_seq(decisions: &[Decision], date: Date) -> (r: Option<u32>)
    requires
        date_is_valid(date),
        ids_wf(decisions@),
    ensures
        match r {
            Some(n) => n == next_seq_on(decisions@, chrono_date_text("%Y%m%d"@, date.year, date.month, date.day)),
            None => next_seq_on(decisions@, chrono_date_text("%Y%m%d"@, date.year, date.month, date.day))
                > u32::MAX,
        },
{
    let day = compact_date_text(date);
    let (found, max) = day_max(decisions, &chars_of(day.as_str()));
    if found && max == u32::MAX {
        None
    } else {
        Some(next_decision_seq(decisions, date))
    }
}

proof fn lemma_max_nonneg(s: Seq<int>)
    ensures
        max_or_zero(s) >= 0,
    decreases s.len(),
{
    if s.len() > 0 {
        lemma_max_nonneg(s.drop_last());
    }
}

// ---------------------------------------------------------------------------
// Duplicate sequence numbers
// ---------------------------------------------------------------------------

#[derive(Debug, Clone, PartialEq, Eq)]
pub struct DuplicateSeq {
    pub date: String,
    pub seq: u32,
    pub ids: Vec<DecisionId>,
}

/// `(date, seq, ids)` of a group.
pub open spec fn dup_view(d: DuplicateSeq) -> (Seq<char>, int, Seq<Seq<char>>) {
    (d.date@, d.seq as int, super::decision::ids_view(d.ids@))
}

pub open spec fn dups_view(v: Seq<DuplicateSeq>) -> Seq<(Seq<char>, int, Seq<Seq<char>>)> {
    v.map_values(|d: DuplicateSeq| dup_view(d))
}

/// A decision ID with its date (as a number) and sequence number, ordered by
/// `(date, seq, id)`.
pub struct DecisionKey {
    pub date_num: u32,
    pub seq: u32,
    pub id: DecisionId,
}

impl SortKey for DecisionKey {
    open spec fn sort_key(&self) -> Seq<int> {
        seq![self.date_num as int, self.seq as int] + char_codes(self.id@)
    }

    fn key_before(&self, other: &Self) -> (r: bool) {
        let r = if self.date_num != other.date_num {
            self.date_num < other.date_num
        } else if self.seq != other.seq {
            self.seq < other.seq
        } else {
            text_before(&chars_of(self.id.as_str()), &chars_of(other.id.as_str()))
        };
        proof {
            let a = self.sort_key();
            let b = other.sort_key();
            assert(a.drop_first().drop_first() =~= char_codes(self.id@));
            assert(b.drop_first().drop_first() =~= char_codes(other.id@));
            assert(a[0] == self.date_num as int && b[0] == other.date_num as int);
            assert(a.drop_first()[0] == self.seq as int && b.drop_first()[0] == other.seq as int);
            assert(seq_lt(a, b) == (if a[0] < b[0] {
                true
            } else if a[0] > b[0] {
                false
            } else {
                seq_lt(a.drop_first(), b.drop_first())
            }));
            assert(seq_lt(a.drop_first(), b.drop_first()) == (if a.drop_first()[0] < b.drop_first()[0] {
                true
            } else if a.drop_first()[0] > b.drop_first()[0] {
                false
            } else {
                seq_lt(a.drop_first().drop_first(), b.drop_first().drop_first())
            }));
        }
        r
    }
}

/// The key of a valid ID.
pub open spec fn key_of(id: DecisionId) -> DecisionKey {
    DecisionKey {
        date_num: crate::text::digits_num(id@.subrange(0, 8)) as u32,
        seq: id_seq(id@) as u32,
        id,
    }
}

pub open spec fn keys_of(ds: Seq<Decision>) -> Seq<DecisionKey> {
    ds.map_values(|d: Decision| key_of(d.id))
}

/// `(date text, seq, id)` of a key.
pub open spec fn entry_view(k: DecisionKey) -> (Seq<char>, int, Seq<char>) {
    (k.id@.subrange(0, 8), k.seq as int, k.id@)
}

pub open spec fn entries_view(s: Seq<DecisionKey>) -> Seq<(Seq<char>, int, Seq<char>)> {
    s.map_values(|k: DecisionKey| entry_view(k))
}

/// Consecutive entries with the same date and number, as groups.
pub open spec fn group_runs(s: Seq<(Seq<char>, int, Seq<char>)>) -> Seq<(Seq<char>, int, Seq<Seq<char>>)>
    decreases s.len(),
{
    if s.len() == 0 {
        Seq::empty()
    } else {
        let g = group_runs(s.drop_last());
        let e = s.last();
        if g.len() > 0 && g.last().0 == e.0 && g.last().1 == e.1 {
            g.update(g.len() - 1, (e.0, e.1, g.last().2.push(e.2)))
        } else {
            g.push((e.0, e.1, seq![e.2]))
        }
    }
}

/// The groups with more than one ID.
pub open spec fn shared_groups(g: Seq<(Seq<char>, int, Seq<Seq<char>>)>) -> Seq<(Seq<char>, int, Seq<Seq<char>>)>
    decreases g.len(),
{
    if g.len() == 0 {
        Seq::empty()
    } else {
        let r = shared_groups(g.drop_last());
        if g.last().2.len() > 1 {
            r.push(g.last())
        } else {
            r
        }
    }
}

/// Keys of every decision, sorted by `(date, seq, id)`.
fn sorted_keys(decisions: &[Decision]) -> (r: Vec<DecisionKey>)
    requires
        ids_wf(decisions@),
    ensures
        r@.to_multiset() == keys_of(decisions@).to_multiset(),
        sorted_by_key(r@),
        forall|i: int| 0 <= i < r@.len() ==> valid_decision_id(#[trigger] r@[i].id@) && r@[i]
            == key_of(r@[i].id),
{
    let mut keys: Vec<DecisionKey> = Vec::new();
    let mut i: usize = 0;
    while i < decisions.len()
        invariant
            i <= decisions.len(),
            ids_wf(decisions@),
            keys@ == keys_of(decisions@).take(i as int),
        decreases decisions.len() - i,
    {
        let id = &decisions[i].id;
        assert(valid_decision_id(decisions@[i as int].id@));
        let date = chars_of(id.date_str());
        proof {
            super::decision::lemma_id_date(id@);
            crate::text::lemma_digits_num_bound(date@);
            assert(crate::text::pow10(8) == 100000000) by {
                reveal_with_fuel(crate::text::pow10, 9);
            }
        }
        let date_num = match crate::text::parse_u32_digits(&date) {
            Some(n) => n,
            None => 0,
        };
        let k = DecisionKey { date_num, seq: id.seq(), id: id.clone() };
        assert(k == key_of(decisions@[i as int].id));
        keys.push(k);
        assert(keys@ =~= keys_of(decisions@).take(i + 1));
        i = i + 1;
    }
    assert(keys_of(decisions@).take(decisions.len() as int) =~= keys_of(decisions@));
    let r = sort_by_key(keys);
    proof {
        assert forall|i: int| 0 <= i < r@.len() implies valid_decision_id(#[trigger] r@[i].id@) && r@[i]
            == key_of(r@[i].id) by {
            assert(r@.to_multiset().count(r@[i]) > 0);
            assert(keys_of(decisions@).contains(r@[i]));
            let j = choose|j: int| 0 <= j < keys_of(decisions@).len() && keys_of(decisions@)[j] == r@[i];
            assert(keys_of(decisions@)[j] == key_of(decisions@[j].id));
        }
    }
    r
}

/// Groups of decisions sharing the same (date, seq), in (date, seq) order
/// with their IDs sorted.
///
/// This happens when two workers add a decision on the same day at the same
/// time. It is only reported.
pub fn duplicate_decision_seqs(decisions: &[Decision]) -> (r: Vec<DuplicateSeq>)
    requires
        ids_wf(decisions@),
    ensures
        exists|s: Seq<DecisionKey>|
            #[trigger] sorted_by_key(s) && s.to_multiset() == keys_of(decisions@).to_multiset()
                && dups_view(r@) == shared_groups(group_runs(entries_view(s))),
{
    let keys = sorted_keys(decisions);
    let ghost es = entries_view(keys@);
    let mut out: Vec<DuplicateSeq> = Vec::new();
    let mut cur_date: Vec<char> = Vec::new();
    let mut cur_seq: u32 = 0;
    let mut cur_ids: Vec<DecisionId> = Vec::new();
    let mut i: usize = 0;
    assert(es.take(0) =~= Seq::<(Seq<char>, int, Seq<char>)>::empty());
    while i < keys.len()
        invariant
            i <= keys.len(),
            es == entries_view(keys@),
            forall|j: int| 0 <= j < keys@.len() ==> valid_decision_id(#[trigger] keys@[j].id@) && keys@[j]
                == key_of(keys@[j].id),
            i == 0 ==> cur_ids@.len() == 0,
            i > 0 ==> group_runs(es.take(i as int)).len() > 0 && group_runs(es.take(i as int)).last()
                == (cur_date@, cur_seq as int, super::decision::ids_view(cur_ids@)),
            dups_view(out@) == (if i == 0 {
                Seq::empty()
            } else {
                shared_groups(group_runs(es.take(i as int)).drop_last())
            }),
        decreases keys.len() - i,
    {
        assert(es.take(i + 1).drop_last() =~= es.take(i as int));
        assert(es.take(i + 1).last() == es[i as int]);
        let k = &keys[i];
        proof {
            super::decision::lemma_id_date(k.id@);
        }
        let date = chars_of(k.id.date_str());
        if i > 0 && vec_eq(&date, &cur_date) && k.seq == cur_seq {
            let ghost before = cur_ids@;
            cur_ids.push(k.id.clone());
            assert(super::decision::ids_view(cur_ids@) =~= super::decision::ids_view(before).push(k.id@));
            proof {
                let g = group_runs(es.take(i as int));
                assert(group_runs(es.take(i + 1)) == g.update(g.len() - 1, (es[i as int].0, es[i as int].1, g.last().2.push(es[i as int].2))));
                assert(group_runs(es.take(i + 1)).drop_last() =~= g.drop_last());
            }
        } else {
            if cur_ids.len() > 1 {
                let group = DuplicateSeq { date: string_of_chars(&cur_date), seq: cur_seq, ids: cur_ids };
                let ghost before = out@;
                out.push(group);
                assert(dups_view(out@) =~= dups_view(before).push(dup_view(group)));
            } else {
                proof {
                    if i > 0 {
                        let g = group_runs(es.take(i as int));
                        assert(g =~= g.drop_last().push(g.last()));
                    }
                }
            }
            proof {
                if i > 0 {
                    let g = group_runs(es.take(i as int));
                    assert(g.drop_last().push(g.last()) =~= g);
                }
            }
            cur_date = date;
            cur_seq = k.seq;
            cur_ids = Vec::new();
            cur_ids.push(k.id.clone());
            assert(super::decision::ids_view(cur_ids@) =~= seq![k.id@]);
            proof {
                let g = group_runs(es.take(i as int));
                assert(group_runs(es.take(i + 1)) == g.push((es[i as int].0, es[i as int].1, seq![es[i as int].2])));
                assert(group_runs(es.take(i + 1)).drop_last() =~= g);
            }
        }
        i = i + 1;
    }
    if cur_ids.len() > 1 {
        let group = DuplicateSeq { date: string_of_chars(&cur_date), seq: cur_seq, ids: cur_ids };
        let ghost before = out@;
        out.push(group);
        assert(dups_view(out@) =~= dups_view(before).push(dup_view(group)));
    }
    proof {
        assert(es.take(keys.len() as int) =~= es);
        let g = group_runs(es);
        if keys.len() > 0 {
            assert(g.drop_last().push(g.last()) =~= g);
        }
        assert(dups_view(out@) == shared_groups(group_runs(entries_view(keys@))));
        assert(sorted_by_key(keys@));
    }
    out
}

fn string_of_chars(v: &Vec<char>) -> (s: String)
    ensures
        s@ == v@,
{
    crate::text::string_of(v.as_slice())
}

// ---------------------------------------------------------------------------
// Renumbering
// ---------------------------------------------------------------------------

#[derive(Debug, Clone, PartialEq, Eq)]
pub struct Renumber {
    pub from: DecisionId,
    pub to: DecisionId,
}

pub open spec fn renumber_view(r: Renumber) -> (Seq<char>, Seq<char>) {
    (r.from@, r.to@)
}

pub open spec fn plan_view(v: Seq<Renumber>) -> Seq<(Seq<char>, Seq<char>)> {
    v.map_values(|r: Renumber| renumber_view(r))
}

impl SortKey for Renumber {
    open spec fn sort_key(&self) -> Seq<int> {
        char_codes(self.from@)
    }

    fn key_before(&self, other: &Self) -> (r: bool) {
        text_before(&chars_of(self.from.as_str()), &chars_of(other.from.as_str()))
    }
}

pub open spec fn is_local(local: Seq<DecisionId>, id: Seq<char>) -> bool {
    exists|k: int| 0 <= k < local.len() && #[trigger] local[k]@ == id
}

/// Whether a group holds an ID that is not local-only.
pub open spec fn has_remote(local: Seq<DecisionId>, ids: Seq<Seq<char>>) -> bool {
    exists|k: int| 0 <= k < ids.len() && !is_local(local, #[trigger] ids[k])
}

/// The last number used on `date`: counted so far, or the largest existing one.
pub open spec fn counter(ds: Seq<Decision>, cs: Map<Seq<char>, int>, date: Seq<char>) -> int {
    if cs.dom().contains(date) {
        cs[date]
    } else {
        max_or_zero(seqs_on(ds, date))
    }
}

/// Plan for the IDs of one group: a local-only ID gets the next unused
/// number of its date, except the first ID of a group without any remote ID,
/// which keeps its number.
pub open spec fn plan_ids(
    ds: Seq<Decision>,
    local: Seq<DecisionId>,
    date: Seq<char>,
    ids: Seq<Seq<char>>,
    remote: bool,
    cs: Map<Seq<char>, int>,
    out: Seq<(Seq<char>, Seq<char>)>,
) -> (Map<Seq<char>, int>, Seq<(Seq<char>, Seq<char>)>)
    decreases ids.len(),
{
    if ids.len() == 0 {
        (cs, out)
    } else {
        let st = plan_ids(ds, local, date, ids.drop_last(), remote, cs, out);
        let from = ids.last();
        if !is_local(local, from) || (!remote && ids.len() == 1) {
            st
        } else {
            let n = counter(ds, st.0, date) + 1;
            (st.0.insert(date, n), st.1.push((from, id_text(date, n as u32, id_parts(from).unwrap().2))))
        }
    }
}

pub open spec fn plan_groups(
    ds: Seq<Decision>,
    local: Seq<DecisionId>,
    gs: Seq<(Seq<char>, int, Seq<Seq<char>>)>,
) -> (Map<Seq<char>, int>, Seq<(Seq<char>, Seq<char>)>)
    decreases gs.len(),
{
    if gs.len() == 0 {
        (Map::empty(), Seq::empty())
    } else {
        let st = plan_groups(ds, local, gs.drop_last());
        let g = gs.last();
        plan_ids(ds, local, g.0, g.2, has_remote(local, g.2), st.0, st.1)
    }
}

/// Every sequence number, plus the number of decisions, fits in a `u32`.
pub open spec fn renumber_fits(ds: Seq<Decision>) -> bool {
    forall|i: int| 0 <= i < ds.len() ==> id_seq(#[trigger] ds[i].id@) + ds.len() <= u32::MAX
}

/// Number of IDs over all groups.
pub open spec fn total_ids(gs: Seq<(Seq<char>, int, Seq<Seq<char>>)>) -> int
    decreases gs.len(),
{
    if gs.len() == 0 {
        0
    } else {
        total_ids(gs.drop_last()) + gs.last().2.len()
    }
}

proof fn lemma_group_runs_total(s: Seq<(Seq<char>, int, Seq<char>)>)
    ensures
        total_ids(group_runs(s)) == s.len(),
    decreases s.len(),
{
    if s.len() > 0 {
        lemma_group_runs_total(s.drop_last());
        let g = group_runs(s.drop_last());
        let e = s.last();
        if g.len() > 0 && g.last().0 == e.0 && g.last().1 == e.1 {
            let u = g.update(g.len() - 1, (e.0, e.1, g.last().2.push(e.2)));
            assert(u.drop_last() =~= g.drop_last());
        } else {
            assert(g.push((e.0, e.1, seq![e.2])).drop_last() =~= g);
        }
    }
}

proof fn lemma_shared_total(gs: Seq<(Seq<char>, int, Seq<Seq<char>>)>)
    ensures
        total_ids(shared_groups(gs)) <= total_ids(gs),
        total_ids(gs) >= 0,
    decreases gs.len(),
{
    if gs.len() > 0 {
        lemma_shared_total(gs.drop_last());
        if gs.last().2.len() > 1 {
            assert(shared_groups(gs.drop_last()).push(gs.last()).drop_last() =~= shared_groups(gs.drop_last()));
        }
    }
}

proof fn lemma_total_take(gs: Seq<(Seq<char>, int, Seq<Seq<char>>)>, g: int)
    requires
        0 <= g <= gs.len(),
    ensures
        total_ids(gs.take(g)) <= total_ids(gs),
        g < gs.len() ==> total_ids(gs.take(g)) + gs[g].2.len() <= total_ids(gs),
    decreases gs.len() - g,
{
    if g < gs.len() {
        lemma_total_take(gs, g + 1);
        assert(gs.take(g + 1).drop_last() =~= gs.take(g));
    } else {
        assert(gs.take(g) =~= gs);
    }
}

proof fn lemma_max_bound(ds: Seq<Decision>, date: Seq<char>, bound: int)
    requires
        forall|i: int| 0 <= i < ds.len() ==> id_seq(#[trigger] ds[i].id@) <= bound,
        bound >= 0,
    ensures
        max_or_zero(seqs_on(ds, date)) <= bound,
    decreases ds.len(),
{
    if ds.len() > 0 {
        lemma_max_bound(ds.drop_last(), date, bound);
        let r = seqs_on(ds.drop_last(), date);
        if ds.last().id@.subrange(0, 8) == date {
            assert(r.push(id_seq(ds.last().id@)).drop_last() =~= r);
        }
    }
}

pub open spec fn group_ok(g: (Seq<char>, int, Seq<Seq<char>>)) -> bool {
    &&& g.2.len() >= 1
    &&& forall|k: int| 0 <= k < g.2.len() ==> valid_decision_id(#[trigger] g.2[k]) && g.2[k].subrange(0, 8) == g.0
}

proof fn lemma_groups_ok(es: Seq<(Seq<char>, int, Seq<char>)>)
    requires
        forall|i: int| 0 <= i < es.len() ==> valid_decision_id(#[trigger] es[i].2) && es[i].0 == es[i].2.subrange(0, 8),
    ensures
        forall|j: int| 0 <= j < group_runs(es).len() ==> group_ok(#[trigger] group_runs(es)[j]),
    decreases es.len(),
{
    if es.len() > 0 {
        lemma_groups_ok(es.drop_last());
        let g = group_runs(es.drop_last());
        let e = es.last();
        assert(valid_decision_id(es[es.len() - 1].2));
        if g.len() > 0 && g.last().0 == e.0 && g.last().1 == e.1 {
            let ng = (e.0, e.1, g.last().2.push(e.2));
            assert(group_ok(g[g.len() - 1]));
            assert forall|k: int| 0 <= k < ng.2.len() implies valid_decision_id(#[trigger] ng.2[k]) && ng.2[k].subrange(0, 8) == ng.0 by {
                if k < g.last().2.len() {
                    assert(ng.2[k] == g.last().2[k]);
                }
            }
            assert forall|j: int| 0 <= j < group_runs(es).len() implies group_ok(#[trigger] group_runs(es)[j]) by {
                if j < g.len() - 1 {
                    assert(group_runs(es)[j] == g[j]);
                }
            }
        } else {
            assert forall|j: int| 0 <= j < group_runs(es).len() implies group_ok(#[trigger] group_runs(es)[j]) by {
                if j < g.len() {
                    assert(group_runs(es)[j] == g[j]);
                }
            }
        }
    }
}

proof fn lemma_shared_ok(gs: Seq<(Seq<char>, int, Seq<Seq<char>>)>)
    requires
        forall|j: int| 0 <= j < gs.len() ==> group_ok(#[trigger] gs[j]),
    ensures
        forall|j: int| 0 <= j < shared_groups(gs).len() ==> group_ok(#[trigger] shared_groups(gs)[j]),
    decreases gs.len(),
{
    if gs.len() > 0 {
        assert forall|j: int| 0 <= j < gs.drop_last().len() implies group_ok(#[trigger] gs.drop_last()[j]) by {
            assert(gs.drop_last()[j] == gs[j]);
        }
        lemma_shared_ok(gs.drop_last());
        assert(group_ok(gs[gs.len() - 1]));
        let r = shared_groups(gs.drop_last());
        if gs.last().2.len() > 1 {
            assert forall|j: int| 0 <= j < r.push(gs.last()).len() implies group_ok(#[trigger] r.push(gs.last())[j]) by {
                if j < r.len() {
                    assert(r.push(gs.last())[j] == r[j]);
                }
            }
        }
    }
}

fn local_contains(local: &[DecisionId], id: &DecisionId) -> (r: bool)
    ensures
        r == is_local(local@, id@),
{
    let mut k: usize = 0;
    while k < local.len()
        invariant
            k <= local.len(),
            forall|j: int| 0 <= j < k ==> #[trigger] local@[j]@ != id@,
        decreases local.len() - k,
    {
        if local[k].same(id) {
            return true;
        }
        k = k + 1;
    }
    false
}

/// The largest number used on `date` (0 for none).
fn max_seq_on(decisions: &[Decision], date: &[char]) -> (r: u32)
    requires
        ids_wf(decisions@),
    ensures
        r == max_or_zero(seqs_on(decisions@, date@)),
{
    let ghost ds = decisions@;
    let mut max: u32 = 0;
    let mut i: usize = 0;
    while i < decisions.len()
        invariant
            i <= decisions.len(),
            ds == decisions@,
            ids_wf(ds),
            max == max_or_zero(seqs_on(ds.take(i as int), date@)),
        decreases decisions.len() - i,
    {
        assert(ds.take(i + 1).drop_last() =~= ds.take(i as int));
        assert(ds.take(i + 1).last() == ds[i as int]);
        assert(valid_decision_id(ds[i as int].id@));
        let d = chars_of(decisions[i].id.date_str());
        let ghost prev = seqs_on(ds.take(i as int), date@);
        if vec_eq(&d, date) {
            let n = decisions[i].id.seq();
            assert(seqs_on(ds.take(i + 1), date@) == prev.push(n as int));
            assert(prev.push(n as int).drop_last() =~= prev);
            if n > max {
                max = n;
            }
        } else {
            assert(seqs_on(ds.take(i + 1), date@) == prev);
        }
        i = i + 1;
    }
    assert(ds.take(decisions.len() as int) =~= ds);
    max
}

/// Counters as a map from date to the last number used.
pub open spec fn counters_map(c: Seq<(Vec<char>, u32)>) -> Map<Seq<char>, int>
    decreases c.len(),
{
    if c.len() == 0 {
        Map::empty()
    } else {
        counters_map(c.drop_last()).insert(c.last().0@, c.last().1 as int)
    }
}

proof fn lemma_counters_map_set(c: Seq<(Vec<char>, u32)>, i: int, e: (Vec<char>, u32))
    requires
        0 <= i < c.len(),
        c[i].0@ == e.0@,
        forall|a: int, b: int| 0 <= a < b < c.len() ==> c[a].0@ != c[b].0@,
    ensures
        counters_map(c.update(i, e)) == counters_map(c).insert(e.0@, e.1 as int),
    decreases c.len(),
{
    if i == c.len() - 1 {
        assert(c.update(i, e).drop_last() =~= c.drop_last());
        assert(counters_map(c).insert(e.0@, e.1 as int) =~= counters_map(c.drop_last()).insert(e.0@, e.1 as int));
    } else {
        assert(c.update(i, e).drop_last() =~= c.drop_last().update(i, e));
        lemma_counters_map_set(c.drop_last(), i, e);
        assert(c.last().0@ != e.0@);
        assert(counters_map(c.update(i, e)) =~= counters_map(c).insert(e.0@, e.1 as int));
    }
}

proof fn lemma_counters_map_has(c: Seq<(Vec<char>, u32)>, i: int)
    requires
        0 <= i < c.len(),
        forall|a: int, b: int| 0 <= a < b < c.len() ==> c[a].0@ != c[b].0@,
    ensures
        counters_map(c).dom().contains(c[i].0@),
        counters_map(c)[c[i].0@] == c[i].1 as int,
    decreases c.len(),
{
    if i < c.len() - 1 {
        lemma_counters_map_has(c.drop_last(), i);
        assert(c.last().0@ != c[i].0@);
    }
}

proof fn lemma_counters_map_lacks(c: Seq<(Vec<char>, u32)>, d: Seq<char>)
    requires
        forall|a: int| 0 <= a < c.len() ==> c[a].0@ != d,
    ensures
        !counters_map(c).dom().contains(d),
    decreases c.len(),
{
    if c.len() > 0 {
        lemma_counters_map_lacks(c.drop_last(), d);
    }
}

/// Plan new IDs for local-only decisions whose date and sequence collide,
/// sorted by the old ID. A new number is the next one after the largest used
/// on that date, so it never collides with a known ID.
pub fn plan_renumber(decisions: &[Decision], local_only: &[DecisionId]) -> (r: Vec<Renumber>)
    requires
        ids_wf(decisions@),
        renumber_fits(decisions@),
    ensures
        sorted_by_key(r@),
        exists|s: Seq<DecisionKey>|
            #[trigger] sorted_by_key(s) && s.to_multiset() == keys_of(decisions@).to_multiset()
                && plan_view(r@).to_multiset() == plan_groups(
                decisions@,
                local_only@,
                shared_groups(group_runs(entries_view(s))),
            ).1.to_multiset(),
{
    let groups = duplicate_decision_seqs(decisions);
    let ghost gs = dups_view(groups@);
    let ghost bound = u32::MAX - decisions.len();
    proof {
        let s = choose|s: Seq<DecisionKey>|
            #[trigger] sorted_by_key(s) && s.to_multiset() == keys_of(decisions@).to_multiset()
                && dups_view(groups@) == shared_groups(group_runs(entries_view(s)));
        vstd::seq_lib::to_multiset_len(s);
        vstd::seq_lib::to_multiset_len(keys_of(decisions@));
        lemma_group_runs_total(entries_view(s));
        lemma_shared_total(group_runs(entries_view(s)));
        assert(total_ids(gs) <= decisions.len());
        let es = entries_view(s);
        assert forall|i: int| 0 <= i < es.len() implies valid_decision_id(#[trigger] es[i].2) && es[i].0 == es[i].2.subrange(0, 8) by {
            assert(s.to_multiset().count(s[i]) > 0);
            assert(keys_of(decisions@).contains(s[i]));
            let j = choose|j: int| 0 <= j < keys_of(decisions@).len() && keys_of(decisions@)[j] == s[i];
            assert(keys_of(decisions@)[j] == key_of(decisions@[j].id));
            assert(valid_decision_id(decisions@[j].id@));
        }
        lemma_groups_ok(es);
        lemma_shared_ok(group_runs(es));
    }
    let mut counters: Vec<(Vec<char>, u32)> = Vec::new();
    let mut plan: Vec<Renumber> = Vec::new();
    let mut g: usize = 0;
    assert(gs.take(0) =~= Seq::<(Seq<char>, int, Seq<Seq<char>>)>::empty());
    while g < groups.len()
        invariant
            g <= groups.len(),
            gs == dups_view(groups@),
            ids_wf(decisions@),
            renumber_fits(decisions@),
            forall|a: int, b: int| 0 <= a < b < counters@.len() ==> counters@[a].0@ != counters@[b].0@,
            (counters_map(counters@), plan_view(plan@)) == plan_groups(decisions@, local_only@, gs.take(g as int)),
            bound == u32::MAX - decisions.len(),
            total_ids(gs) <= decisions.len(),
            forall|j: int| 0 <= j < gs.len() ==> group_ok(#[trigger] gs[j]),
            plan@.len() <= total_ids(gs.take(g as int)),
            forall|a: int| 0 <= a < counters@.len() ==> #[trigger] counters@[a].1 <= bound + plan@.len(),
        decreases groups.len() - g,
    {
        assert(gs.take(g + 1).drop_last() =~= gs.take(g as int));
        assert(gs.take(g + 1).last() == gs[g as int]);
        let group = &groups[g];
        let ghost gv = gs[g as int];
        let mut remote = false;
        let mut k: usize = 0;
        while k < group.ids.len()
            invariant
                k <= group.ids.len(),
                remote == exists|j: int| 0 <= j < k && !is_local(local_only@, #[trigger] group.ids@[j]@),
            decreases group.ids.len() - k,
        {
            if !local_contains(local_only, &group.ids[k]) {
                remote = true;
            }
            k = k + 1;
        }
        assert(remote == has_remote(local_only@, gv.2)) by {
            if remote {
                let j = choose|j: int| 0 <= j < group.ids@.len() && !is_local(local_only@, #[trigger] group.ids@[j]@);
                assert(gv.2[j] == group.ids@[j]@);
            }
            if has_remote(local_only@, gv.2) {
                let j = choose|j: int| 0 <= j < gv.2.len() && !is_local(local_only@, #[trigger] gv.2[j]);
                assert(gv.2[j] == group.ids@[j]@);
            }
        }
        let ghost st0 = plan_groups(decisions@, local_only@, gs.take(g as int));
        let ghost done_before = total_ids(gs.take(g as int));
        proof {
            lemma_total_take(gs, g as int);
            assert(group_ok(gs[g as int]));
        }
        let date = chars_of(group.date.as_str());
        let mut index: usize = 0;
        assert(gv.2.take(0) =~= Seq::<Seq<char>>::empty());
        while index < group.ids.len()
            invariant
                index <= group.ids.len(),
                gv == dup_view(*group),
                date@ == gv.0,
                remote == has_remote(local_only@, gv.2),
                ids_wf(decisions@),
                renumber_fits(decisions@),
                forall|a: int, b: int| 0 <= a < b < counters@.len() ==> counters@[a].0@ != counters@[b].0@,
                (counters_map(counters@), plan_view(plan@)) == plan_ids(decisions@, local_only@, gv.0, gv.2.take(index as int), remote, st0.0, st0.1),
                bound == u32::MAX - decisions.len(),
                done_before + gv.2.len() <= decisions.len(),
                group_ok(gv),
                plan@.len() <= done_before + index,
                forall|a: int| 0 <= a < counters@.len() ==> #[trigger] counters@[a].1 <= bound + plan@.len(),
            decreases group.ids.len() - index,
        {
            assert(gv.2.take(index + 1).drop_last() =~= gv.2.take(index as int));
            assert(gv.2.take(index + 1).last() == group.ids@[index as int]@);
            let from = &group.ids[index];
            assert(from@ == gv.2[index as int]);
            if !local_contains(local_only, from) || (!remote && index == 0) {
            } else {
                // find this date's counter
                let mut c: usize = 0;
                while c < counters.len() && !vec_eq(&counters[c].0, &date)
                    invariant
                        c <= counters.len(),
                        forall|a: int| 0 <= a < c ==> #[trigger] counters@[a].0@ != date@,
                    decreases counters.len() - c,
                {
                    c = c + 1;
                }
                let last = if c < counters.len() {
                    proof {
                        lemma_counters_map_has(counters@, c as int);
                    }
                    counters[c].1
                } else {
                    proof {
                        lemma_counters_map_lacks(counters@, date@);
                        assert(decisions@.len() > 0);
                        assert(id_seq(decisions@[0].id@) + decisions@.len() <= u32::MAX);
                        crate::text::lemma_digits_num_nonneg(id_parts(decisions@[0].id@).unwrap().1);
                        assert forall|i: int| 0 <= i < decisions@.len() implies id_seq(#[trigger] decisions@[i].id@) <= bound by {
                            assert(renumber_fits(decisions@));
                        }
                        lemma_max_bound(decisions@, date@, bound);
                    }
                    max_seq_on(decisions, &date)
                };
                assert(last <= bound + plan@.len());
                assert(gv.2.len() == group.ids@.len());
                let n = last + 1;
                if c < counters.len() {
                    let ghost before = counters@;
                    counters.set(c, (copy_chars(&date), n));
                    proof {
                        lemma_counters_map_set(before, c as int, (counters@[c as int].0, n));
                    }
                } else {
                    let ghost before = counters@;
                    counters.push((copy_chars(&date), n));
                    assert(counters@.drop_last() =~= before);
                }
                proof {
                    super::decision::lemma_id_date(from@);
                    assert(group.date@ == from@.subrange(0, 8));
                }
                let to = DecisionId::from_parts(group.date.as_str(), n, from.slug().as_str());
                let ghost before = plan@;
                plan.push(Renumber { from: from.clone(), to });
                assert(plan_view(plan@) =~= plan_view(before).push((from@, to@)));
            }
            index = index + 1;
        }
        assert(gv.2.take(group.ids.len() as int) =~= gv.2);
        proof {
            assert(gs.take(g + 1).drop_last() =~= gs.take(g as int));
        }
        g = g + 1;
    }
    assert(gs.take(groups.len() as int) =~= gs);
    let ghost unsorted = plan@;
    let sorted = sort_by_key(plan);
    proof {
        crate::order::lemma_multiset_map(sorted@, unsorted, |r: Renumber| renumber_view(r));
    }
    sorted
}

fn copy_chars(v: &Vec<char>) -> (r: Vec<char>)
    ensures
        r@ == v@,
{
    crate::text::copy_vec(v.as_slice())
}

/// The new ID of `id` in a plan (the first entry for it), or `id` itself.
pub open spec fn mapped_id(map: Seq<(Seq<char>, Seq<char>)>, id: Seq<char>) -> Seq<char>
    decreases map.len(),
{
    if map.len() == 0 {
        id
    } else if map[0].0 == id {
        map[0].1
    } else {
        mapped_id(map.drop_first(), id)
    }
}

fn map_id(map: &[Renumber], id: &DecisionId) -> (r: DecisionId)
    ensures
        r@ == mapped_id(plan_view(map@), id@),
{
    let ghost pv = plan_view(map@);
    let mut k: usize = 0;
    assert(pv.subrange(0, pv.len() as int) =~= pv);
    while k < map.len()
        invariant
            k <= map.len(),
            pv == plan_view(map@),
            mapped_id(pv, id@) == mapped_id(pv.subrange(k as int, pv.len() as int), id@),
        decreases map.len() - k,
    {
        let ghost rest = pv.subrange(k as int, pv.len() as int);
        assert(rest.drop_first() =~= pv.subrange(k + 1, pv.len() as int));
        assert(rest[0] == renumber_view(map@[k as int]));
        if map[k].from.same(id) {
            return map[k].to.clone();
        }
        k = k + 1;
    }
    assert(pv.subrange(map.len() as int, pv.len() as int) =~= Seq::<(Seq<char>, Seq<char>)>::empty());
    id.clone()
}

/// A copy of `decision` with the ID `to`, and with each superseded ID
/// rewritten through `map`.
pub fn renumber_decision(decision: &Decision, to: &DecisionId, map: &[Renumber]) -> (r: Decision)
    ensures
        r@ == (DecisionView {
            id: to@,
            supersedes: decision@.supersedes.map_values(|i: Seq<char>| mapped_id(plan_view(map@), i)),
            ..decision@
        }),
{
    let mut supersedes: Vec<DecisionId> = Vec::new();
    let mut i: usize = 0;
    let ghost want = decision@.supersedes.map_values(|x: Seq<char>| mapped_id(plan_view(map@), x));
    while i < decision.supersedes.len()
        invariant
            i <= decision.supersedes.len(),
            want == decision@.supersedes.map_values(|x: Seq<char>| mapped_id(plan_view(map@), x)),
            super::decision::ids_view(supersedes@) == want.take(i as int),
        decreases decision.supersedes.len() - i,
    {
        let m = map_id(map, &decision.supersedes[i]);
        let ghost before = supersedes@;
        supersedes.push(m);
        assert(super::decision::ids_view(supersedes@) =~= super::decision::ids_view(before).push(m@));
        assert(want[i as int] == mapped_id(plan_view(map@), decision@.supersedes[i as int]));
        assert(decision@.supersedes[i as int] == decision.supersedes@[i as int]@);
        assert(super::decision::ids_view(supersedes@) =~= want.take(i + 1));
        i = i + 1;
    }
    assert(want.take(decision.supersedes.len() as int) =~= want);
    let author = match &decision.author {
        Some(a) => Some(a.clone()),
        None => None,
    };
    let extra = super::md::copy_sections(&decision.extra_sections);
    let r = Decision {
        id: to.clone(),
        title: decision.title.clone(),
        status: decision.status,
        date: decision.date,
        author,
        supersedes,
        context: decision.context.clone(),
        decision: decision.decision.clone(),
        reason: decision.reason.clone(),
        consequences: decision.consequences.clone(),
        extra_sections: extra,
    };
    r
}

/// `duplicate decision number <date>-<NNN>: <ids>`, the warning `sync`
/// gives for a shared number.
pub fn duplicate_warning(dup: &DuplicateSeq) -> (r: String)
    ensures
        r@ == "duplicate decision number "@ + dup.date@ + "-"@ + crate::text::zero_padded(dup.seq as nat, 3)
            + ": "@ + crate::text::join(super::decision::ids_view(dup.ids@), ", "@),
{
    let mut s = String::new();
    s.append("duplicate decision number ");
    s.append(dup.date.as_str());
    s.append("-");
    let n = crate::text::u64_zero_padded(dup.seq as u64, 3);
    s.append(n.as_str());
    s.append(": ");
    let mut ids: Vec<String> = Vec::new();
    let mut i: usize = 0;
    while i < dup.ids.len()
        invariant
            i <= dup.ids.len(),
            crate::text::sv(ids@) == super::decision::ids_view(dup.ids@).take(i as int),
        decreases dup.ids.len() - i,
    {
        let t = String::from_str(dup.ids[i].as_str());
        let ghost before = ids@;
        ids.push(t);
        assert(crate::text::sv(ids@) =~= crate::text::sv(before).push(t@));
        assert(super::decision::ids_view(dup.ids@).take(i + 1) =~= super::decision::ids_view(dup.ids@).take(i as int).push(dup.ids@[i as int]@));
        i = i + 1;
    }
    assert(super::decision::ids_view(dup.ids@).take(dup.ids.len() as int) =~= super::decision::ids_view(dup.ids@));
    let list = crate::text::join_strings(&ids, ", ");
    s.append(list.as_str());
    s
}

} // verus!
