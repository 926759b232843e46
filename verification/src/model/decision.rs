//! Decision files (`30-decision-<YYYYMMDD>-<NNN>-<slug>.md`).
//!
//! Decisions are append-only: an existing file is never rewritten. A new
//! decision replaces an old one by listing it in `Supersedes:`.

use vstd::prelude::*;
use vstd::string::StrSliceExecFns;

use super::md::{lookup, parse_doc, sections_view, MdDoc, MdSection, TextPair};
use crate::clock::{
    agrees_with, chrono_date_parse, compact_date_of, compact_date_text, compact_form, compact_shape,
    dashed_date_text, date_is_valid, date_result, parse_compact_date, parse_dashed_date,
    string_result, Date,
};
use crate::error::Error;
use crate::text::{
    ascii_lower, char_ascii_lower, char_is_alnum, char_is_digit, chars_of, debug_str, decimal,
    digits_num, eq_ignore_ascii_case, extend_vec, is_alnum, is_digit, is_lower, only_digits,
    parse_u32_digits, slice_vec, spec_debug_str, split, split_once, split_vec, string_of,
    strip_prefix, strip_suffix, trim, trim_end_char, trim_vec, u64_zero_padded, vec_eq,
    vec_eq_ignore_ascii_case, vec_split_once, vec_trim_end_char, vv, zero_padded,
};

verus! {

pub const DECISION_PREFIX: &'static str = "30-decision-";

#[derive(Debug, Clone, Copy, PartialEq, Eq, Structural)]
pub enum DecisionStatus {
    Proposed,
    Accepted,
    Superseded,
    Rejected,
}

/// The lowercase name written in `Status:`.
pub open spec fn status_name(s: DecisionStatus) -> Seq<char> {
    match s {
        DecisionStatus::Proposed => "proposed"@,
        DecisionStatus::Accepted => "accepted"@,
        DecisionStatus::Superseded => "superseded"@,
        DecisionStatus::Rejected => "rejected"@,
    }
}

/// The status named by `t`, ignoring surrounding whitespace and ASCII case.
pub open spec fn status_from_text(t: Seq<char>) -> Option<DecisionStatus> {
    let w = trim(t);
    if eq_ignore_ascii_case(w, "proposed"@) {
        Some(DecisionStatus::Proposed)
    } else if eq_ignore_ascii_case(w, "accepted"@) {
        Some(DecisionStatus::Accepted)
    } else if eq_ignore_ascii_case(w, "superseded"@) {
        Some(DecisionStatus::Superseded)
    } else if eq_ignore_ascii_case(w, "rejected"@) {
        Some(DecisionStatus::Rejected)
    } else {
        None
    }
}

impl DecisionStatus {
    pub fn as_str(&self) -> (r: &'static str)
        ensures
            r@ == status_name(*self),
    {
        match self {
            DecisionStatus::Proposed => "proposed",
            DecisionStatus::Accepted => "accepted",
            DecisionStatus::Superseded => "superseded",
            DecisionStatus::Rejected => "rejected",
        }
    }

    /// Reads a status name (any ASCII case, surrounding whitespace ignored).
    pub fn parse(s: &str) -> (r: Result<DecisionStatus, Error>)
        ensures
            match r {
                Ok(st) => status_from_text(s@) == Some(st),
                Err(e) => status_from_text(s@) is None && (e matches Error::General(m) && m@
                    == "invalid decision status: "@ + spec_debug_str(s@)),
            },
    {
        let w = trim_vec(&chars_of(s));
        if vec_eq_ignore_ascii_case(&w, &chars_of("proposed")) {
            Ok(DecisionStatus::Proposed)
        } else if vec_eq_ignore_ascii_case(&w, &chars_of("accepted")) {
            Ok(DecisionStatus::Accepted)
        } else if vec_eq_ignore_ascii_case(&w, &chars_of("superseded")) {
            Ok(DecisionStatus::Superseded)
        } else if vec_eq_ignore_ascii_case(&w, &chars_of("rejected")) {
            Ok(DecisionStatus::Rejected)
        } else {
            let mut m = String::new();
            m.append("invalid decision status: ");
            let d = debug_str(s);
            m.append(d.as_str());
            Err(Error::General(m))
        }
    }
}

impl std::str::FromStr for DecisionStatus {
    type Err = Error;

    fn from_str(s: &str) -> (r: Result<DecisionStatus, Error>)
        ensures
            match r {
                Ok(st) => status_from_text(s@) == Some(st),
                Err(e) => status_from_text(s@) is None && (e matches Error::General(m) && m@
                    == "invalid decision status: "@ + spec_debug_str(s@)),
            },
    {
        DecisionStatus::parse(s)
    }
}

// ---------------------------------------------------------------------------
// Decision IDs
// ---------------------------------------------------------------------------

pub open spec fn slug_char(c: char) -> bool {
    is_lower(c) || is_digit(c) || c == '-'
}

pub open spec fn valid_slug(s: Seq<char>) -> bool {
    s.len() > 0 && forall|i: int| 0 <= i < s.len() ==> slug_char(#[trigger] s[i])
}

/// `(date, seq, slug)` of `date-seq-slug`, split at the first two dashes.
pub open spec fn id_parts(s: Seq<char>) -> Option<(Seq<char>, Seq<char>, Seq<char>)> {
    match split_once(s, '-') {
        Some(a) => match split_once(a.1, '-') {
            Some(b) => Some((a.0, b.0, b.1)),
            None => None,
        },
        None => None,
    }
}

/// 8 digits, a dash, at least 3 digits fitting in a `u32`, a dash and
/// `[a-z0-9-]+`.
pub open spec fn valid_decision_id(s: Seq<char>) -> bool {
    match id_parts(s) {
        Some(p) => p.0.len() == 8 && only_digits(p.0) && p.1.len() >= 3 && only_digits(p.1)
            && digits_num(p.1) <= u32::MAX && valid_slug(p.2),
        None => false,
    }
}

/// The sequence number of a valid ID.
pub open spec fn id_seq(s: Seq<char>) -> int {
    digits_num(id_parts(s).unwrap().1)
}

/// `<date>-<NNN>-<slug>`: the date in `YYYYMMDD` form and the number with at
/// least three digits.
pub open spec fn id_text(date: Seq<char>, seq: u32, slug: Seq<char>) -> Seq<char> {
    date + seq!['-'] + zero_padded(seq as nat, 3) + seq!['-'] + slug
}

/// `30-decision-<id>.md`.
pub open spec fn decision_file_name(id: Seq<char>) -> Seq<char> {
    "30-decision-"@ + id + ".md"@
}

/// The ID named by a decision file name.
pub open spec fn id_of_file_name(name: Seq<char>) -> Option<Seq<char>> {
    match strip_prefix(name, "30-decision-"@) {
        Some(rest) => match strip_suffix(rest, ".md"@) {
            Some(id) => if valid_decision_id(id) {
                Some(id)
            } else {
                None
            },
            None => None,
        },
        None => None,
    }
}

/// `<YYYYMMDD>-<NNN>-<slug>`, e.g. `20260923-001-gist-storage`.
#[derive(Debug, PartialEq, Eq, PartialOrd, Ord, Hash)]
pub struct DecisionId(String);

impl View for DecisionId {
    type V = Seq<char>;

    closed spec fn view(&self) -> Seq<char> {
        self.0@
    }
}

impl Clone for DecisionId {
    fn clone(&self) -> (r: DecisionId)
        ensures
            r == *self,
    {
        DecisionId(self.0.clone())
    }
}

fn all_digits_vec(v: &[char]) -> (b: bool)
    ensures
        b == only_digits(v@),
{
    let mut i: usize = 0;
    while i < v.len()
        invariant
            i <= v.len(),
            forall|j: int| 0 <= j < i ==> is_digit(#[trigger] v@[j]),
        decreases v.len() - i,
    {
        if !char_is_digit(v[i]) {
            return false;
        }
        i = i + 1;
    }
    true
}

fn slug_vec_ok(v: &[char]) -> (b: bool)
    ensures
        b == valid_slug(v@),
{
    if v.len() == 0 {
        return false;
    }
    let mut i: usize = 0;
    while i < v.len()
        invariant
            i <= v.len(),
            forall|j: int| 0 <= j < i ==> slug_char(#[trigger] v@[j]),
        decreases v.len() - i,
    {
        let c = v[i];
        if !(('a' <= c && c <= 'z') || char_is_digit(c) || c == '-') {
            return false;
        }
        i = i + 1;
    }
    true
}

/// Whether `v` is a valid ID; on success also its sequence number.
fn check_id(v: &[char]) -> (r: Option<u32>)
    ensures
        r is Some <==> valid_decision_id(v@),
        r matches Some(n) ==> n == id_seq(v@),
{
    match vec_split_once(v, '-') {
        None => None,
        Some((date, rest)) => match vec_split_once(&rest, '-') {
            None => None,
            Some((seq, slug)) => {
                if date.len() == 8 && all_digits_vec(&date) && seq.len() >= 3 && all_digits_vec(
                    &seq,
                ) {
                    match parse_u32_digits(&seq) {
                        Some(n) => if slug_vec_ok(&slug) {
                            Some(n)
                        } else {
                            None
                        },
                        None => None,
                    }
                } else {
                    None
                }
            },
        },
    }
}

pub proof fn lemma_id_date(s: Seq<char>)
    requires
        valid_decision_id(s),
    ensures
        s.len() > 9,
        s.subrange(0, 8) == id_parts(s).unwrap().0,
        s[8] == '-',
{
    crate::text::lemma_find_char(s, '-');
    let i = crate::text::find_char(s, '-').unwrap();
    assert(i == 8);
}

impl DecisionId {
    /// Requires 8 digits, a dash, at least 3 digits, a dash and `[a-z0-9-]+`.
    pub fn parse(s: &str) -> (r: Result<DecisionId, Error>)
        ensures
            match r {
                Ok(id) => valid_decision_id(s@) && id@ == s@,
                Err(e) => !valid_decision_id(s@) && (e matches Error::General(m) && m@
                    == "invalid decision id: "@ + spec_debug_str(s@)),
            },
    {
        let v = chars_of(s);
        match check_id(&v) {
            Some(_) => Ok(DecisionId(string_of(&v))),
            None => {
                let mut m = String::new();
                m.append("invalid decision id: ");
                let d = debug_str(s);
                m.append(d.as_str());
                Err(Error::General(m))
            },
        }
    }

    /// `<YYYYMMDD>-<NNN>-<slug>` of the given parts.
    pub fn new(date: Date, seq: u32, slug: &str) -> (r: DecisionId)
        requires
            date_is_valid(date),
            0 <= date.year <= 9999,
            valid_slug(slug@),
        ensures
            r@ == id_text(compact_form(date), seq, slug@),
            valid_decision_id(r@),
            id_seq(r@) == seq,
    {
        let d = compact_date_text(date);
        let n = u64_zero_padded(seq as u64, 3);
        let mut s = String::new();
        s.append(d.as_str());
        s.append("-");
        s.append(n.as_str());
        s.append("-");
        s.append(slug);
        proof {
            reveal_strlit("-");
            crate::clock::lemma_date_forms(date);
            assert(only_digits(compact_form(date)));
            lemma_id_text(compact_form(date), seq, slug@);
            assert(s@ =~= id_text(compact_form(date), seq, slug@));
        }
        DecisionId(s)
    }

    pub fn as_str(&self) -> (r: &str)
        ensures
            r@ == self@,
    {
        self.0.as_str()
    }

    /// `YYYYMMDD`.
    pub fn date_str(&self) -> (r: &str)
        requires
            valid_decision_id(self@),
        ensures
            r@ == id_parts(self@).unwrap().0,
            r@ == self@.subrange(0, 8),
    {
        proof {
            lemma_id_date(self@);
        }
        self.0.as_str().substring_char(0, 8)
    }

    pub fn seq(&self) -> (r: u32)
        requires
            valid_decision_id(self@),
        ensures
            r == id_seq(self@),
    {
        let v = chars_of(self.0.as_str());
        match check_id(&v) {
            Some(n) => n,
            None => 0,
        }
    }

    /// `30-decision-<id>.md`.
    pub fn file_name(&self) -> (r: String)
        ensures
            r@ == decision_file_name(self@),
    {
        let mut s = String::new();
        s.append(DECISION_PREFIX);
        s.append(self.0.as_str());
        s.append(".md");
        s
    }

    pub fn from_file_name(name: &str) -> (r: Option<DecisionId>)
        ensures
            match r {
                Some(id) => id_of_file_name(name@) == Some(id@),
                None => id_of_file_name(name@) is None,
            },
    {
        let v = chars_of(name);
        let p = chars_of(DECISION_PREFIX);
        let sfx = chars_of(".md");
        if v.len() < p.len() || !vec_eq(&slice_vec(&v, 0, p.len()), &p) {
            proof {
                if v.len() >= p.len() {
                    assert(v@.subrange(0, p.len() as int) != p@);
                }
            }
            return None;
        }
        let rest = slice_vec(&v, p.len(), v.len());
        if rest.len() < sfx.len() || !vec_eq(&slice_vec(&rest, rest.len() - sfx.len(), rest.len()), &sfx) {
            return None;
        }
        let id = slice_vec(&rest, 0, rest.len() - sfx.len());
        match check_id(&id) {
            Some(_) => Some(DecisionId(string_of(&id))),
            None => None,
        }
    }

    /// `<date>-<NNN>-<slug>` of an eight-digit date, a number and a slug.
    pub fn from_parts(date: &str, seq: u32, slug: &str) -> (r: DecisionId)
        requires
            date@.len() == 8,
            only_digits(date@),
            valid_slug(slug@),
        ensures
            r@ == id_text(date@, seq, slug@),
            valid_decision_id(r@),
            id_seq(r@) == seq,
    {
        let n = u64_zero_padded(seq as u64, 3);
        let mut s = String::new();
        s.append(date);
        s.append("-");
        s.append(n.as_str());
        s.append("-");
        s.append(slug);
        proof {
            reveal_strlit("-");
            lemma_id_text(date@, seq, slug@);
            assert(s@ =~= id_text(date@, seq, slug@));
        }
        DecisionId(s)
    }

    /// The slug: what follows the second dash.
    pub fn slug(&self) -> (r: String)
        requires
            valid_decision_id(self@),
        ensures
            r@ == id_parts(self@).unwrap().2,
            valid_slug(r@),
    {
        let v = chars_of(self.0.as_str());
        match vec_split_once(&v, '-') {
            Some((_, rest)) => match vec_split_once(&rest, '-') {
                Some((_, slug)) => string_of(&slug),
                None => String::new(),
            },
            None => String::new(),
        }
    }

    /// Whether two IDs are the same.
    pub fn same(&self, other: &DecisionId) -> (r: bool)
        ensures
            r == (self@ == other@),
    {
        self.0 == other.0
    }
}

pub proof fn lemma_id_text(date: Seq<char>, seq: u32, slug: Seq<char>)
    requires
        date.len() == 8,
        only_digits(date),
        valid_slug(slug),
    ensures
        valid_decision_id(id_text(date, seq, slug)),
        id_seq(id_text(date, seq, slug)) == seq,
{
    let s = id_text(date, seq, slug);
    let n = zero_padded(seq as nat, 3);
    crate::text::lemma_zero_padded(seq as nat, 3);
    // the first dash is right after the date
    assert forall|j: int| 0 <= j < 8 implies s[j] != '-' by {
        assert(s[j] == date[j]);
        assert(is_digit(date[j]));
    }
    assert(s[8] == '-');
    crate::text::lemma_find_char_unique(s, '-', 8);
    let rest = s.subrange(9, s.len() as int);
    assert(s.subrange(0, 8) =~= date);
    assert(rest =~= n + seq!['-'] + slug);
    assert forall|j: int| 0 <= j < n.len() implies rest[j] != '-' by {
        assert(rest[j] == n[j]);
        assert(is_digit(n[j]));
    }
    assert(rest[n.len() as int] == '-');
    crate::text::lemma_find_char_unique(rest, '-', n.len() as int);
    assert(rest.subrange(0, n.len() as int) =~= n);
    assert(rest.subrange(n.len() as int + 1, rest.len() as int) =~= slug);
}

/// A file name names a decision exactly when it is `30-decision-<id>.md`
/// for a valid ID, and then it names that ID.
pub proof fn lemma_file_name_shape(name: Seq<char>, id: Seq<char>)
    ensures
        id_of_file_name(name) == Some(id) <==> (name == decision_file_name(id) && valid_decision_id(id)),
{
    reveal_strlit("30-decision-");
    reveal_strlit(".md");
    let p = "30-decision-"@;
    let m = ".md"@;
    if id_of_file_name(name) == Some(id) {
        let rest = name.subrange(p.len() as int, name.len() as int);
        assert(name.subrange(0, p.len() as int) == p);
        assert(rest.subrange(rest.len() - m.len(), rest.len() as int) == m);
        assert(id == rest.subrange(0, rest.len() - m.len()));
        assert(rest =~= id + m);
        assert(name =~= p + rest);
        assert(name =~= decision_file_name(id));
    }
    if name == decision_file_name(id) && valid_decision_id(id) {
        assert(name.subrange(0, p.len() as int) =~= p);
        let rest = name.subrange(p.len() as int, name.len() as int);
        assert(rest =~= id + m);
        assert(rest.subrange(rest.len() - 3, rest.len() as int) =~= m);
        assert(rest.subrange(0, rest.len() - 3) =~= id);
    }
}

/// The parts of an ID: eight digits, at least three digits whose number
/// fits in a `u32`, and a slug of `[a-z0-9-]`.
pub open spec fn id_shape(date: Seq<char>, num: Seq<char>, slug: Seq<char>) -> bool {
    &&& date.len() == 8 && only_digits(date)
    &&& num.len() >= 3 && only_digits(num) && digits_num(num) <= u32::MAX
    &&& valid_slug(slug)
}

/// `date-num-slug` read back into its parts, for digit-only `date` and `num`.
proof fn lemma_id_parts_of(date: Seq<char>, num: Seq<char>, slug: Seq<char>)
    requires
        only_digits(date),
        only_digits(num),
    ensures
        id_parts(date + seq!['-'] + num + seq!['-'] + slug) == Some((date, num, slug)),
{
    let s = date + seq!['-'] + num + seq!['-'] + slug;
    assert forall|j: int| 0 <= j < date.len() implies s[j] != '-' by {
        assert(s[j] == date[j]);
        assert(is_digit(date[j]));
    }
    assert(s[date.len() as int] == '-');
    crate::text::lemma_find_char_unique(s, '-', date.len() as int);
    let rest = s.subrange(date.len() as int + 1, s.len() as int);
    assert(s.subrange(0, date.len() as int) =~= date);
    assert(rest =~= num + seq!['-'] + slug);
    assert forall|j: int| 0 <= j < num.len() implies rest[j] != '-' by {
        assert(rest[j] == num[j]);
        assert(is_digit(num[j]));
    }
    assert(rest[num.len() as int] == '-');
    crate::text::lemma_find_char_unique(rest, '-', num.len() as int);
    assert(rest.subrange(0, num.len() as int) =~= num);
    assert(rest.subrange(num.len() as int + 1, rest.len() as int) =~= slug);
}

/// A text is a valid decision ID exactly when it is `D-S-G` with `D` eight
/// digits, `S` at least three digits whose number fits in a `u32`, and `G`
/// a non-empty slug of `[a-z0-9-]`: a valid ID is its three parts joined by
/// dashes, and any such three parts joined make a valid ID with those parts.
pub proof fn lemma_id_shape(s: Seq<char>, date: Seq<char>, num: Seq<char>, slug: Seq<char>)
    ensures
        valid_decision_id(s) ==> ({
            let p = id_parts(s).unwrap();
            s == p.0 + seq!['-'] + p.1 + seq!['-'] + p.2 && id_shape(p.0, p.1, p.2)
        }),
        id_shape(date, num, slug) && s == date + seq!['-'] + num + seq!['-'] + slug ==> valid_decision_id(s)
            && id_parts(s) == Some((date, num, slug)),
{
    if valid_decision_id(s) {
        crate::text::lemma_find_char(s, '-');
        let a = split_once(s, '-').unwrap();
        crate::text::lemma_find_char(a.1, '-');
        let j = crate::text::find_char(a.1, '-').unwrap();
        let p = id_parts(s).unwrap();
        assert(a.1 =~= p.1 + seq!['-'] + p.2) by {
            assert(a.1.subrange(0, j) == p.1);
            assert(a.1.subrange(j + 1, a.1.len() as int) == p.2);
        }
        assert(s =~= p.0 + seq!['-'] + a.1);
    }
    if id_shape(date, num, slug) && s == date + seq!['-'] + num + seq!['-'] + slug {
        lemma_id_parts_of(date, num, slug);
    }
}

// ---------------------------------------------------------------------------
// Slugs
// ---------------------------------------------------------------------------

/// One step of [`slug_raw`]: letters and digits are kept (lowercased); any
/// other character becomes a single `-` after a kept character.
pub open spec fn slug_step(acc: Seq<char>, c: char) -> Seq<char> {
    if is_alnum(c) {
        acc.push(ascii_lower(c))
    } else if acc.len() > 0 && acc.last() != '-' {
        acc.push('-')
    } else {
        acc
    }
}

pub open spec fn slug_raw(t: Seq<char>) -> Seq<char>
    decreases t.len(),
{
    if t.len() == 0 {
        Seq::empty()
    } else {
        slug_step(slug_raw(t.drop_last()), t.last())
    }
}

/// Lowercase ASCII letters and digits; other runs become one `-`.
/// At most 40 characters; `decision` when nothing is left.
pub open spec fn slug_of(title: Seq<char>) -> Seq<char> {
    let raw = slug_raw(title);
    let cut = if raw.len() > 40 {
        raw.take(40)
    } else {
        raw
    };
    let s = trim_end_char(cut, '-');
    if s.len() == 0 {
        "decision"@
    } else {
        s
    }
}

/// A slug never starts with `-`, never has two `-` in a row, and is empty
/// only when the text has no ASCII letter or digit.
proof fn lemma_slug_raw_shape(t: Seq<char>)
    ensures
        slug_raw(t).len() > 0 ==> slug_raw(t)[0] != '-',
        forall|i: int| 0 <= i < slug_raw(t).len() - 1 ==> !(#[trigger] slug_raw(t)[i] == '-' && slug_raw(t)[i + 1] == '-'),
        slug_raw(t).len() == 0 <==> forall|i: int| 0 <= i < t.len() ==> !is_alnum(#[trigger] t[i]),
    decreases t.len(),
{
    if t.len() > 0 {
        let u = t.drop_last();
        lemma_slug_raw_shape(u);
        let acc = slug_raw(u);
        let c = t.last();
        let r = slug_raw(t);
        assert(r == slug_step(acc, c));
        if is_alnum(c) {
            assert(ascii_lower(c) != '-');
        }
        assert forall|i: int| 0 <= i < r.len() - 1 implies !(#[trigger] r[i] == '-' && r[i + 1] == '-') by {
            if i + 1 < acc.len() {
                assert(r[i] == acc[i] && r[i + 1] == acc[i + 1]);
            } else if i < acc.len() {
                assert(r[i] == acc[i]);
            }
        }
        if acc.len() > 0 {
            assert(r[0] == acc[0]);
        }
        if r.len() == 0 {
            assert(!is_alnum(c));
            assert forall|i: int| 0 <= i < t.len() implies !is_alnum(#[trigger] t[i]) by {
                if i < u.len() {
                    assert(t[i] == u[i]);
                }
            }
        } else if forall|i: int| 0 <= i < t.len() ==> !is_alnum(#[trigger] t[i]) {
            assert(!is_alnum(t[t.len() - 1]));
            assert forall|i: int| 0 <= i < u.len() implies !is_alnum(#[trigger] u[i]) by {
                assert(u[i] == t[i]);
            }
        }
    }
}

proof fn lemma_trim_dashes(s: Seq<char>)
    ensures
        trim_end_char(s, '-').len() <= s.len(),
        trim_end_char(s, '-') == s.take(trim_end_char(s, '-').len() as int),
        trim_end_char(s, '-').len() > 0 ==> trim_end_char(s, '-').last() != '-',
    decreases s.len(),
{
    if s.len() > 0 && s.last() == '-' {
        lemma_trim_dashes(s.drop_last());
        let r = trim_end_char(s, '-');
        assert(s.drop_last().take(r.len() as int) =~= s.take(r.len() as int));
    } else {
        assert(s.take(s.len() as int) =~= s);
    }
}

/// What `slugify` gives: a non-empty slug of at most 40 characters of
/// `[a-z0-9-]`, neither starting nor ending with `-` and without `--`;
/// `decision` for a title without an ASCII letter or digit.
pub proof fn lemma_slug_shape(title: Seq<char>)
    ensures
        ({
            let s = slug_of(title);
            &&& 0 < s.len() <= 40
            &&& forall|i: int| 0 <= i < s.len() ==> slug_char(#[trigger] s[i])
            &&& s[0] != '-'
            &&& s.last() != '-'
            &&& forall|i: int| 0 <= i < s.len() - 1 ==> !(#[trigger] s[i] == '-' && s[i + 1] == '-')
        }),
        (forall|i: int| 0 <= i < title.len() ==> !is_alnum(#[trigger] title[i])) ==> slug_of(title)
            == "decision"@,
{
    reveal_strlit("decision");
    let raw = slug_raw(title);
    lemma_slug_raw_shape(title);
    lemma_slug_raw_chars(title);
    let cut = if raw.len() > 40 { raw.take(40) } else { raw };
    lemma_trim_dashes(cut);
    let t = trim_end_char(cut, '-');
    let s = slug_of(title);
    if t.len() == 0 {
        assert(s == "decision"@);
        let d = "decision"@;
        assert forall|i: int| 0 <= i < d.len() implies slug_char(#[trigger] d[i]) by {}
    } else {
        assert(s == t);
        assert forall|i: int| 0 <= i < t.len() implies t[i] == raw[i] by {
            assert(t[i] == cut.take(t.len() as int)[i]);
        }
        assert(s[0] == raw[0]);
        assert forall|i: int| 0 <= i < s.len() implies slug_char(#[trigger] s[i]) by {
            assert(s[i] == raw[i]);
        }
        assert forall|i: int| 0 <= i < s.len() - 1 implies !(#[trigger] s[i] == '-' && s[i + 1] == '-') by {
            assert(s[i] == raw[i] && s[i + 1] == raw[i + 1]);
        }
    }
    if forall|i: int| 0 <= i < title.len() ==> !is_alnum(#[trigger] title[i]) {
        assert(raw.len() == 0);
        assert(cut.len() == 0);
    }
}

proof fn lemma_slug_raw_chars(t: Seq<char>)
    ensures
        forall|i: int| 0 <= i < slug_raw(t).len() ==> slug_char(#[trigger] slug_raw(t)[i]),
    decreases t.len(),
{
    if t.len() > 0 {
        lemma_slug_raw_chars(t.drop_last());
        let acc = slug_raw(t.drop_last());
        let c = t.last();
        if is_alnum(c) {
            assert(slug_char(ascii_lower(c)));
        }
        assert forall|i: int| 0 <= i < slug_raw(t).len() implies slug_char(#[trigger] slug_raw(t)[i]) by {
            if i < acc.len() {
                assert(slug_raw(t)[i] == acc[i]);
            }
        }
    }
}

/// Lowercase ASCII letters and digits; other runs become one `-`.
/// At most 40 characters; `decision` when nothing is left.
pub fn slugify(title: &str) -> (r: String)
    ensures
        r@ == slug_of(title@),
        valid_slug(r@),
{
    let t = chars_of(title);
    let mut slug: Vec<char> = Vec::new();
    let mut i: usize = 0;
    while i < t.len()
        invariant
            i <= t.len(),
            slug@ == slug_raw(t@.take(i as int)),
        decreases t.len() - i,
    {
        assert(t@.take(i + 1).drop_last() =~= t@.take(i as int));
        let c = t[i];
        if char_is_alnum(c) {
            slug.push(char_ascii_lower(c));
        } else if slug.len() > 0 && slug[slug.len() - 1] != '-' {
            slug.push('-');
        }
        i = i + 1;
    }
    assert(t@.take(t.len() as int) =~= t@);
    let cut = if slug.len() > 40 {
        slice_vec(&slug, 0, 40)
    } else {
        slug
    };
    assert(slug_raw(title@).len() > 40 ==> slug_raw(title@).take(40) =~= slug_raw(
        title@,
    ).subrange(0, 40));
    let s = vec_trim_end_char(&cut, '-');
    proof {
        lemma_slug_raw_chars(title@);
        lemma_trim_end_char_prefix(cut@, '-');
    }
    if s.len() == 0 {
        let r = String::from_str("decision");
        proof {
            reveal_strlit("decision");
        }
        r
    } else {
        proof {
            let raw = slug_raw(title@);
            assert forall|k: int| 0 <= k < s@.len() implies slug_char(#[trigger] s@[k]) by {
                assert(s@[k] == cut@[k]);
                assert(cut@[k] == raw[k]);
            }
        }
        string_of(&s)
    }
}

proof fn lemma_trim_end_char_prefix(s: Seq<char>, c: char)
    ensures
        trim_end_char(s, c).len() <= s.len(),
        forall|i: int| 0 <= i < trim_end_char(s, c).len() ==> #[trigger] trim_end_char(s, c)[i]
            == s[i],
    decreases s.len(),
{
    if s.len() > 0 && s.last() == c {
        lemma_trim_end_char_prefix(s.drop_last(), c);
    }
}


// ---------------------------------------------------------------------------
// Decision files
// ---------------------------------------------------------------------------

/// The contents of a decision as character sequences.
pub ghost struct DecisionView {
    pub id: Seq<char>,
    pub title: Seq<char>,
    pub status: DecisionStatus,
    pub date: Date,
    pub author: Option<Seq<char>>,
    pub supersedes: Seq<Seq<char>>,
    pub context: Seq<char>,
    pub decision: Seq<char>,
    pub reason: Seq<char>,
    pub consequences: Seq<char>,
    pub extra_sections: Seq<TextPair>,
}

#[derive(Debug, Clone, PartialEq)]
pub struct Decision {
    pub id: DecisionId,
    pub title: String,
    pub status: DecisionStatus,
    pub date: Date,
    pub author: Option<String>,
    pub supersedes: Vec<DecisionId>,
    pub context: String,
    pub decision: String,
    pub reason: String,
    pub consequences: String,
    /// Unknown sections, kept when the file is written back.
    pub extra_sections: Vec<MdSection>,
}

pub open spec fn opt_view(o: Option<String>) -> Option<Seq<char>> {
    match o {
        Some(s) => Some(s@),
        None => None,
    }
}

pub open spec fn ids_view(v: Seq<DecisionId>) -> Seq<Seq<char>> {
    v.map_values(|i: DecisionId| i@)
}

impl View for Decision {
    type V = DecisionView;

    open spec fn view(&self) -> DecisionView {
        DecisionView {
            id: self.id@,
            title: self.title@,
            status: self.status,
            date: self.date,
            author: opt_view(self.author),
            supersedes: ids_view(self.supersedes@),
            context: self.context@,
            decision: self.decision@,
            reason: self.reason@,
            consequences: self.consequences@,
            extra_sections: sections_view(self.extra_sections@),
        }
    }
}

/// The title without a leading `Decision:`, trimmed.
pub open spec fn decision_title(t: Seq<char>) -> Seq<char> {
    match strip_prefix(t, "Decision:"@) {
        Some(r) => trim(r),
        None => trim(t),
    }
}

/// A field's trimmed value, when it is not blank.
pub open spec fn nonblank_field(fields: Seq<TextPair>, key: Seq<char>) -> Option<Seq<char>> {
    match lookup(fields, key) {
        Some(v) => if trim(v).len() > 0 {
            Some(trim(v))
        } else {
            None
        },
        None => None,
    }
}

/// The pieces, trimmed, without the empty ones.
pub open spec fn nonempty_trimmed(parts: Seq<Seq<char>>) -> Seq<Seq<char>>
    decreases parts.len(),
{
    if parts.len() == 0 {
        Seq::empty()
    } else {
        let r = nonempty_trimmed(parts.drop_last());
        let t = trim(parts.last());
        if t.len() > 0 {
            r.push(t)
        } else {
            r
        }
    }
}

/// The non-empty trimmed items of a comma-separated list.
pub open spec fn list_items(v: Seq<char>) -> Seq<Seq<char>> {
    nonempty_trimmed(split(v, ','))
}

proof fn lemma_nonempty_trimmed_prefix(a: Seq<Seq<char>>, k: int)
    requires
        0 <= k <= a.len(),
    ensures
        nonempty_trimmed(a.take(k)).len() <= nonempty_trimmed(a).len(),
        nonempty_trimmed(a.take(k)) == nonempty_trimmed(a).take(
            nonempty_trimmed(a.take(k)).len() as int,
        ),
    decreases a.len() - k,
{
    if k == a.len() {
        assert(a.take(k) =~= a);
        assert(nonempty_trimmed(a).take(nonempty_trimmed(a).len() as int) =~= nonempty_trimmed(a));
    } else {
        lemma_nonempty_trimmed_prefix(a, k + 1);
        assert(a.take(k + 1).drop_last() =~= a.take(k));
        let p = nonempty_trimmed(a.take(k));
        let q = nonempty_trimmed(a.take(k + 1));
        let full = nonempty_trimmed(a);
        assert(q == full.take(q.len() as int));
        if trim(a[k]).len() > 0 {
            assert(q == p.push(trim(a[k])));
            assert(p =~= q.take(p.len() as int));
            assert(full.take(p.len() as int) =~= full.take(q.len() as int).take(p.len() as int));
        } else {
            assert(q == p);
        }
    }
}

proof fn lemma_first_invalid_push(s: Seq<Seq<char>>, x: Seq<char>)
    ensures
        first_invalid_id(s.push(x)) == (if first_invalid_id(s) is Some {
            first_invalid_id(s)
        } else if !valid_decision_id(x) {
            Some(x)
        } else {
            None
        }),
    decreases s.len(),
{
    if s.len() == 0 {
        assert(s.push(x).drop_first() =~= Seq::<Seq<char>>::empty());
    } else {
        assert(s.push(x).drop_first() =~= s.drop_first().push(x));
        assert(s.push(x)[0] == s[0]);
        lemma_first_invalid_push(s.drop_first(), x);
    }
}

proof fn lemma_first_invalid_prefix(p: Seq<Seq<char>>, s: Seq<Seq<char>>)
    requires
        p.len() <= s.len(),
        p == s.take(p.len() as int),
        first_invalid_id(p) is Some,
    ensures
        first_invalid_id(s) == first_invalid_id(p),
    decreases p.len(),
{
    assert(p[0] == s[0]);
    if valid_decision_id(p[0]) {
        assert(p.drop_first() =~= s.drop_first().take(p.len() - 1));
        lemma_first_invalid_prefix(p.drop_first(), s.drop_first());
    }
}

pub open spec fn supersede_items(fields: Seq<TextPair>) -> Seq<Seq<char>> {
    match lookup(fields, "Supersedes"@) {
        Some(v) => list_items(v),
        None => list_items(Seq::empty()),
    }
}

/// The first item that is not a valid decision ID.
pub open spec fn first_invalid_id(items: Seq<Seq<char>>) -> Option<Seq<char>>
    decreases items.len(),
{
    if items.len() == 0 {
        None
    } else if !valid_decision_id(items[0]) {
        Some(items[0])
    } else {
        first_invalid_id(items.drop_first())
    }
}

/// `Date:` (`YYYY-MM-DD`) when given, else the date in the ID (`YYYYMMDD`).
pub open spec fn decision_date(fields: Seq<TextPair>, id: Seq<char>) -> Result<Date, Seq<char>> {
    match nonblank_field(fields, "Date"@) {
        Some(d) => match date_result(chrono_date_parse(d, "%Y-%m-%d"@)) {
            Ok(x) => Ok(x),
            Err(e) => Err("invalid Date "@ + spec_debug_str(d) + ": "@ + e),
        },
        None => match date_result(chrono_date_parse(id.subrange(0, 8), "%Y%m%d"@)) {
            Ok(x) => Ok(x),
            Err(e) => Err("invalid date in id "@ + id + ": "@ + e),
        },
    }
}

/// Puts a section in its place: the four known headings fill their fields
/// (a later one wins), any other is kept in order.
pub open spec fn absorb(dv: DecisionView, sec: TextPair) -> DecisionView {
    if sec.0 == "Context"@ {
        DecisionView { context: sec.1, ..dv }
    } else if sec.0 == "Decision"@ {
        DecisionView { decision: sec.1, ..dv }
    } else if sec.0 == "Reason"@ {
        DecisionView { reason: sec.1, ..dv }
    } else if sec.0 == "Consequences"@ {
        DecisionView { consequences: sec.1, ..dv }
    } else {
        DecisionView { extra_sections: dv.extra_sections.push(sec), ..dv }
    }
}

pub open spec fn absorb_all(dv: DecisionView, secs: Seq<TextPair>) -> DecisionView
    decreases secs.len(),
{
    if secs.len() == 0 {
        dv
    } else {
        absorb(absorb_all(dv, secs.drop_last()), secs.last())
    }
}

/// The decision in file `name` with text `content`, or the error message.
/// The ID comes from the file name; the `ID:` field is informational.
pub open spec fn decision_parse(name: Seq<char>, content: Seq<char>) -> Result<DecisionView, Seq<char>> {
    match id_of_file_name(name) {
        None => Err("invalid decision file name: "@ + name),
        Some(id) => match parse_doc(content) {
            None => Err("invalid markdown: missing '# ' title"@),
            Some(doc) => match lookup(doc.1, "Status"@) {
                None => Err("missing Status"@),
                Some(st) => match status_from_text(st) {
                    None => Err("invalid decision status: "@ + spec_debug_str(st)),
                    Some(status) => match decision_date(doc.1, id) {
                        Err(m) => Err(m),
                        Ok(date) => match first_invalid_id(supersede_items(doc.1)) {
                            Some(bad) => Err("invalid decision id: "@ + spec_debug_str(bad)),
                            None => Ok(
                                absorb_all(
                                    DecisionView {
                                        id,
                                        title: decision_title(doc.0),
                                        status,
                                        date,
                                        author: nonblank_field(doc.1, "Author"@),
                                        supersedes: supersede_items(doc.1),
                                        context: Seq::empty(),
                                        decision: Seq::empty(),
                                        reason: Seq::empty(),
                                        consequences: Seq::empty(),
                                        extra_sections: Seq::empty(),
                                    },
                                    doc.3,
                                ),
                            ),
                        },
                    },
                },
            },
        },
    }
}

/// The document a decision is written as.
pub open spec fn decision_doc(d: DecisionView) -> super::md::DocView {
    let base = seq![
        ("ID"@, d.id),
        ("Status"@, status_name(d.status)),
        ("Date"@, crate::clock::chrono_date_text("%Y-%m-%d"@, d.date.year, d.date.month, d.date.day)),
    ];
    let with_author = match d.author {
        Some(a) => base.push(("Author"@, a)),
        None => base,
    };
    let fields = if d.supersedes.len() > 0 {
        with_author.push(("Supersedes"@, crate::text::join(d.supersedes, ", "@)))
    } else {
        with_author
    };
    let sections = seq![
        ("Context"@, d.context),
        ("Decision"@, d.decision),
        ("Reason"@, d.reason),
        ("Consequences"@, d.consequences),
    ] + d.extra_sections;
    ("Decision: "@ + d.title, fields, Seq::empty(), sections)
}

/// A copy of a list of IDs.
pub fn copy_ids(v: &Vec<DecisionId>) -> (r: Vec<DecisionId>)
    ensures
        ids_view(r@) == ids_view(v@),
{
    let mut r: Vec<DecisionId> = Vec::new();
    let mut i: usize = 0;
    while i < v.len()
        invariant
            i <= v.len(),
            ids_view(r@) == ids_view(v@).take(i as int),
        decreases v.len() - i,
    {
        let c = v[i].clone();
        let ghost before = r@;
        r.push(c);
        assert(ids_view(r@) =~= ids_view(before).push(c@));
        assert(ids_view(r@) =~= ids_view(v@).take(i + 1));
        i = i + 1;
    }
    assert(ids_view(v@).take(v.len() as int) =~= ids_view(v@));
    r
}

fn text_field(doc: &MdDoc, key: &str) -> (r: Option<String>)
    ensures
        opt_view(r) == nonblank_field(doc@.1, key@),
{
    match doc.field(key) {
        Some(v) => {
            let t = trim_vec(&chars_of(v));
            if t.len() > 0 {
                Some(string_of(&t))
            } else {
                None
            }
        },
        None => None,
    }
}

/// The items of a comma-separated list, each parsed as an ID.
fn parse_id_list(v: &str) -> (r: Result<Vec<DecisionId>, Error>)
    ensures
        match r {
            Ok(ids) => first_invalid_id(list_items(v@)) is None && ids_view(ids@) == list_items(
                v@,
            ),
            Err(e) => first_invalid_id(list_items(v@)) matches Some(bad) && (e matches Error::General(
                m,
            ) && m@ == "invalid decision id: "@ + spec_debug_str(bad)),
        },
{
    let parts = split_vec(&chars_of(v), ',');
    let ghost ps = split(v@, ',');
    let mut ids: Vec<DecisionId> = Vec::new();
    let mut i: usize = 0;
    assert(ps.take(0) =~= Seq::<Seq<char>>::empty());
    while i < parts.len()
        invariant
            i <= parts.len(),
            parts@.len() == ps.len(),
            forall|k: int| 0 <= k < parts@.len() ==> #[trigger] parts@[k]@ == ps[k],
            ps == split(v@, ','),
            ids_view(ids@) == nonempty_trimmed(ps.take(i as int)),
            first_invalid_id(nonempty_trimmed(ps.take(i as int))) is None,
        decreases parts.len() - i,
    {
        let t = trim_vec(&parts[i]);
        assert(t@ == trim(ps[i as int]));
        assert(ps.take(i + 1).drop_last() =~= ps.take(i as int));
        assert(ps.take(i + 1).last() == ps[i as int]);
        if t.len() > 0 {
            let s = string_of(&t);
            proof {
                lemma_first_invalid_push(nonempty_trimmed(ps.take(i as int)), t@);
            }
            match DecisionId::parse(s.as_str()) {
                Ok(id) => {
                    let ghost before = ids@;
                    ids.push(id);
                    assert(ids_view(ids@) =~= ids_view(before).push(t@));
                },
                Err(e) => {
                    proof {
                        lemma_nonempty_trimmed_prefix(ps, i + 1);
                        lemma_first_invalid_prefix(nonempty_trimmed(ps.take(i + 1)), list_items(v@));
                    }
                    return Err(e);
                },
            }
        }
        i = i + 1;
    }
    assert(ps.take(parts.len() as int) =~= ps);
    Ok(ids)
}

/// IDs valid and the date one that exists.
pub open spec fn decision_wf(d: DecisionView) -> bool {
    &&& valid_decision_id(d.id)
    &&& forall|i: int| 0 <= i < d.supersedes.len() ==> valid_decision_id(#[trigger] d.supersedes[i])
    &&& date_is_valid(d.date)
}

proof fn lemma_absorb_all_keeps(dv: DecisionView, secs: Seq<TextPair>)
    ensures
        absorb_all(dv, secs).id == dv.id,
        absorb_all(dv, secs).supersedes == dv.supersedes,
        absorb_all(dv, secs).date == dv.date,
    decreases secs.len(),
{
    if secs.len() > 0 {
        lemma_absorb_all_keeps(dv, secs.drop_last());
    }
}

proof fn lemma_no_invalid(s: Seq<Seq<char>>)
    requires
        first_invalid_id(s) is None,
    ensures
        forall|i: int| 0 <= i < s.len() ==> valid_decision_id(#[trigger] s[i]),
    decreases s.len(),
{
    if s.len() > 0 {
        lemma_no_invalid(s.drop_first());
        assert forall|i: int| 0 <= i < s.len() implies valid_decision_id(#[trigger] s[i]) by {
            if i > 0 {
                assert(s[i] == s.drop_first()[i - 1]);
            }
        }
    }
}

fn title_text(t: &String) -> (r: String)
    ensures
        r@ == decision_title(t@),
{
    let v = chars_of(t.as_str());
    let p = chars_of("Decision:");
    if v.len() >= p.len() && vec_eq(&slice_vec(&v, 0, p.len()), &p) {
        string_of(&trim_vec(&slice_vec(&v, p.len(), v.len())))
    } else {
        proof {
            if v.len() >= p.len() {
                assert(v@.subrange(0, p.len() as int) != p@);
            }
        }
        string_of(&trim_vec(&v))
    }
}

fn general(a: &str, b: &str, c: &str, d: &str) -> (e: Error)
    ensures
        e matches Error::General(m) && m@ == a@ + b@ + c@ + d@,
{
    let mut m = String::new();
    m.append(a);
    m.append(b);
    m.append(c);
    m.append(d);
    Error::General(m)
}

impl Decision {
    /// `30-decision-<id>.md`.
    pub fn file_name(&self) -> (r: String)
        ensures
            r@ == decision_file_name(self.id@),
    {
        self.id.file_name()
    }

    /// Reads a decision file. The ID comes from the file name; the `ID:`
    /// field is informational.
    pub fn parse(file_name: &str, content: &str) -> (r: Result<Decision, Error>)
        ensures
            match r {
                Ok(d) => decision_parse(file_name@, content@) == Ok::<DecisionView, Seq<char>>(d@)
                    && decision_wf(d@),
                Err(e) => decision_parse(file_name@, content@) matches Err(m) && (e matches Error::General(
                    t,
                ) && t@ == m),
            },
    {
        proof {
            reveal_strlit("");
        }
        let id = match DecisionId::from_file_name(file_name) {
            Some(id) => id,
            None => {
                return Err(general("invalid decision file name: ", file_name, "", ""));
            },
        };
        let doc = match MdDoc::parse(content) {
            Ok(d) => d,
            Err(e) => {
                return Err(e);
            },
        };
        let title = title_text(&doc.title);
        let st = match doc.field("Status") {
            Some(st) => st,
            None => {
                return Err(general("missing Status", "", "", ""));
            },
        };
        let status = match DecisionStatus::parse(st) {
            Ok(s) => s,
            Err(e) => {
                return Err(e);
            },
        };
        proof {
            lemma_id_date(id@);
        }
        let date = match text_field(&doc, "Date") {
            Some(d) => match parse_dashed_date(d.as_str()) {
                Ok(x) => x,
                Err(ce) => {
                    let q = debug_str(d.as_str());
                    return Err(general("invalid Date ", q.as_str(), ": ", ce.as_str()));
                },
            },
            None => match parse_compact_date(id.date_str()) {
                Ok(x) => x,
                Err(ce) => {
                    return Err(general("invalid date in id ", id.as_str(), ": ", ce.as_str()));
                },
            },
        };
        let author = text_field(&doc, "Author");
        let listed = match doc.field("Supersedes") {
            Some(v) => parse_id_list(v),
            None => parse_id_list(""),
        };
        proof {
            reveal_strlit("");
        }
        let supersedes = match listed {
            Ok(ids) => ids,
            Err(e) => {
                return Err(e);
            },
        };
        let mut d = Decision {
            id,
            title,
            status,
            date,
            author,
            supersedes,
            context: String::new(),
            decision: String::new(),
            reason: String::new(),
            consequences: String::new(),
            extra_sections: Vec::new(),
        };
        let ghost base = d@;
        let ghost secs = sections_view(doc.sections@);
        proof {
            let docv = parse_doc(content@).unwrap();
            assert(doc@ == docv);
            assert(base.supersedes == supersede_items(docv.1));
            assert(first_invalid_id(supersede_items(docv.1)) is None);
            lemma_no_invalid(base.supersedes);
            assert(base.id == id_of_file_name(file_name@).unwrap());
            assert(base.title == decision_title(docv.0));
            assert(base.status == status_from_text(lookup(docv.1, "Status"@).unwrap()).unwrap());
            assert(base.date == decision_date(docv.1, id_of_file_name(file_name@).unwrap())->Ok_0);
            assert(base.author == nonblank_field(docv.1, "Author"@));
            assert(base.context == Seq::<char>::empty());
            assert(base.extra_sections == Seq::<TextPair>::empty());
            assert(base == DecisionView {
                id: id_of_file_name(file_name@).unwrap(),
                title: decision_title(docv.0),
                status: status_from_text(lookup(docv.1, "Status"@).unwrap()).unwrap(),
                date: decision_date(docv.1, id_of_file_name(file_name@).unwrap())->Ok_0,
                author: nonblank_field(docv.1, "Author"@),
                supersedes: supersede_items(docv.1),
                context: Seq::empty(),
                decision: Seq::empty(),
                reason: Seq::empty(),
                consequences: Seq::empty(),
                extra_sections: Seq::empty(),
            });
        }
        assert(sections_view(d.extra_sections@) =~= Seq::<TextPair>::empty());
        assert(secs.take(0) =~= Seq::<TextPair>::empty());
        let mut i: usize = 0;
        while i < doc.sections.len()
            invariant
                i <= doc.sections.len(),
                secs == sections_view(doc.sections@),
                d@ == absorb_all(base, secs.take(i as int)),
            decreases doc.sections.len() - i,
        {
            assert(secs.take(i + 1).drop_last() =~= secs.take(i as int));
            assert(secs.take(i + 1).last() == secs[i as int]);
            let h = chars_of(doc.sections[i].heading.as_str());
            let body = doc.sections[i].body.clone();
            if vec_eq(&h, &chars_of("Context")) {
                d.context = body;
            } else if vec_eq(&h, &chars_of("Decision")) {
                d.decision = body;
            } else if vec_eq(&h, &chars_of("Reason")) {
                d.reason = body;
            } else if vec_eq(&h, &chars_of("Consequences")) {
                d.consequences = body;
            } else {
                let sec = MdSection { heading: doc.sections[i].heading.clone(), body };
                let ghost before = d.extra_sections@;
                d.extra_sections.push(sec);
                assert(sections_view(d.extra_sections@) =~= sections_view(before).push(secs[i as int]));
            }
            i = i + 1;
        }
        assert(secs.take(doc.sections.len() as int) =~= secs);
        proof {
            lemma_absorb_all_keeps(base, secs);
        }
        Ok(d)
    }

    /// The file text: title, `ID`/`Status`/`Date` fields (then `Author` and
    /// `Supersedes` when present), the four sections and the unknown ones.
    pub fn render(&self) -> (r: String)
        requires
            date_is_valid(self.date),
        ensures
            r@ == super::md::doc_text(decision_doc(self@)),
    {
        let ghost dv = self@;
        let ghost spec_doc = decision_doc(dv);
        let mut fields: Vec<(String, String)> = Vec::new();
        fields.push((String::from_str("ID"), String::from_str(self.id.as_str())));
        fields.push((String::from_str("Status"), String::from_str(self.status.as_str())));
        fields.push((String::from_str("Date"), dashed_date_text(self.date)));
        let ghost base = seq![
            ("ID"@, dv.id),
            ("Status"@, status_name(dv.status)),
            ("Date"@, crate::clock::chrono_date_text("%Y-%m-%d"@, dv.date.year, dv.date.month, dv.date.day)),
        ];
        assert(super::md::pairs_view(fields@) =~= base);
        match &self.author {
            Some(a) => {
                let ghost before = fields@;
                fields.push((String::from_str("Author"), a.clone()));
                assert(super::md::pairs_view(fields@) =~= super::md::pairs_view(before).push(("Author"@, a@)));
            },
            None => {},
        }
        let ghost with_author = super::md::pairs_view(fields@);
        if self.supersedes.len() > 0 {
            let mut ids: Vec<String> = Vec::new();
            let mut i: usize = 0;
            while i < self.supersedes.len()
                invariant
                    i <= self.supersedes.len(),
                    crate::text::sv(ids@) == ids_view(self.supersedes@).take(i as int),
                decreases self.supersedes.len() - i,
            {
                let ghost before = ids@;
                ids.push(String::from_str(self.supersedes[i].as_str()));
                assert(crate::text::sv(ids@) =~= crate::text::sv(before).push(self.supersedes@[i as int]@));
                assert(crate::text::sv(ids@) =~= ids_view(self.supersedes@).take(i + 1));
                i = i + 1;
            }
            assert(ids_view(self.supersedes@).take(self.supersedes.len() as int) =~= ids_view(self.supersedes@));
            let joined = crate::text::join_strings(&ids, ", ");
            let ghost before = fields@;
            fields.push((String::from_str("Supersedes"), joined));
            assert(super::md::pairs_view(fields@) =~= super::md::pairs_view(before).push(("Supersedes"@, joined@)));
        }
        assert(super::md::pairs_view(fields@) == spec_doc.1);
        let mut sections: Vec<MdSection> = Vec::new();
        sections.push(MdSection { heading: String::from_str("Context"), body: self.context.clone() });
        sections.push(MdSection { heading: String::from_str("Decision"), body: self.decision.clone() });
        sections.push(MdSection { heading: String::from_str("Reason"), body: self.reason.clone() });
        sections.push(MdSection { heading: String::from_str("Consequences"), body: self.consequences.clone() });
        let ghost head = sections@;
        let mut j: usize = 0;
        while j < self.extra_sections.len()
            invariant
                j <= self.extra_sections.len(),
                sections@ == head + self.extra_sections@.take(j as int),
            decreases self.extra_sections.len() - j,
        {
            let sec = MdSection {
                heading: self.extra_sections[j].heading.clone(),
                body: self.extra_sections[j].body.clone(),
            };
            assert(sec == self.extra_sections@[j as int]);
            sections.push(sec);
            assert(head + self.extra_sections@.take(j + 1) =~= (head + self.extra_sections@.take(
                j as int,
            )).push(self.extra_sections@[j as int]));
            j = j + 1;
        }
        assert(self.extra_sections@.take(self.extra_sections.len() as int) =~= self.extra_sections@);
        assert(sections_view(sections@) =~= sections_view(head) + sections_view(self.extra_sections@));
        assert(sections_view(head) =~= seq![
            ("Context"@, dv.context),
            ("Decision"@, dv.decision),
            ("Reason"@, dv.reason),
            ("Consequences"@, dv.consequences),
        ]);
        let mut title = String::new();
        title.append("Decision: ");
        title.append(self.title.as_str());
        let doc = MdDoc { title, fields, preamble: String::new(), sections };
        proof {
            reveal_strlit("");
        }
        assert(doc@ =~= spec_doc);
        doc.render()
    }
}

/// A copy of `d`, field by field.
pub fn copy_decision(d: &Decision) -> (r: Decision)
    ensures
        r@ == d@,
{
    Decision {
        id: d.id.clone(),
        title: d.title.clone(),
        status: d.status,
        date: d.date,
        author: match &d.author {
            Some(a) => Some(a.clone()),
            None => None,
        },
        supersedes: copy_ids(&d.supersedes),
        context: d.context.clone(),
        decision: d.decision.clone(),
        reason: d.reason.clone(),
        consequences: d.consequences.clone(),
        extra_sections: crate::model::md::copy_sections(&d.extra_sections),
    }
}

} // verus!
