//! Detection of obvious credentials in text written to the shared context.
//!
//! A secret Gist is not a secret store: anyone with the URL can read it.
//! ctx-sync only warns; it never blocks the write. The detected value itself
//! is never included in the warning.

use vstd::prelude::*;

use crate::model::decision::opt_view;
use crate::text::{
    char_is_alnum, char_is_digit, char_is_upper, chars_of, contains, is_alnum, is_digit, is_upper,
    occurs_at, string_of, sv, vec_contains, vec_occurs_at,
};

verus! {

#[derive(Debug, Clone, PartialEq, Eq)]
pub struct SecretFinding {
    pub kind: &'static str,
    /// Where the text came from, e.g. `summary` or `attention[0]`.
    pub field: String,
}

/// Number of token rules (the private-key check comes after them).
pub const RULE_COUNT: usize = 5;

/// Kind reported by each rule.
pub open spec fn rule_kind(r: int) -> Seq<char> {
    if r == 0 {
        "openai-api-key"@
    } else if r == 1 {
        "github-token"@
    } else if r == 2 {
        "github-pat"@
    } else if r == 3 {
        "aws-access-key"@
    } else {
        "slack-token"@
    }
}

/// Prefixes that start a token of each rule.
pub open spec fn rule_prefixes(r: int) -> Seq<Seq<char>> {
    if r == 0 {
        seq!["sk-"@]
    } else if r == 1 {
        seq!["ghp_"@, "gho_"@, "ghu_"@, "ghs_"@, "ghr_"@]
    } else if r == 2 {
        seq!["github_pat_"@]
    } else if r == 3 {
        seq!["AKIA"@]
    } else {
        seq!["xoxb-"@, "xoxp-"@, "xoxa-"@, "xoxr-"@]
    }
}

/// Characters allowed in the body after the prefix.
pub open spec fn body_char(r: int, c: char) -> bool {
    if r == 0 {
        is_alnum(c) || c == '-' || c == '_'
    } else if r == 1 {
        is_alnum(c)
    } else if r == 2 {
        is_alnum(c) || c == '_'
    } else if r == 3 {
        is_upper(c) || is_digit(c)
    } else {
        is_alnum(c) || c == '-'
    }
}

/// Minimum body length; the AWS rule needs exactly 16 characters.
pub open spec fn rule_min_len(r: int) -> nat {
    if r == 3 {
        16
    } else if r == 4 {
        1
    } else {
        20
    }
}

/// Length of the run of body characters at the start of `s`.
pub open spec fn body_run(s: Seq<char>, r: int) -> nat
    decreases s.len(),
{
    if s.len() > 0 && body_char(r, s[0]) {
        1 + body_run(s.drop_first(), r)
    } else {
        0
    }
}

/// `prefix` occurs at `start`, not preceded by an ASCII letter or digit,
/// and is followed by a long enough body.
///
/// Every occurrence is considered. Matching only non-overlapping occurrences
/// gives the same answer: only `AKIA` can overlap itself, and such an
/// overlapping occurrence is preceded by `I`.
pub open spec fn token_at(text: Seq<char>, prefix: Seq<char>, r: int, start: int) -> bool {
    &&& occurs_at(text, prefix, start)
    &&& !(start > 0 && is_alnum(text[start - 1]))
    &&& {
        let rest = text.subrange(start + prefix.len(), text.len() as int);
        let n = body_run(rest, r);
        if r == 3 {
            n == 16 && !(rest.len() > 16 && is_alnum(rest[16]))
        } else {
            n >= rule_min_len(r)
        }
    }
}

pub open spec fn has_token(text: Seq<char>, prefix: Seq<char>, r: int) -> bool {
    exists|start: int| token_at(text, prefix, r, start)
}

pub open spec fn rule_matches(text: Seq<char>, r: int) -> bool {
    exists|k: int| 0 <= k < rule_prefixes(r).len() && has_token(text, #[trigger] rule_prefixes(r)[k], r)
}

/// A PEM private key header.
pub open spec fn has_private_key(text: Seq<char>) -> bool {
    contains(text, "-----BEGIN "@) && contains(text, "PRIVATE KEY-----"@)
}

/// Kinds found by the first `n` rules, in rule order.
pub open spec fn kinds_upto(text: Seq<char>, n: int) -> Seq<Seq<char>>
    decreases n,
{
    if n <= 0 {
        Seq::empty()
    } else if rule_matches(text, n - 1) {
        kinds_upto(text, n - 1).push(rule_kind(n - 1))
    } else {
        kinds_upto(text, n - 1)
    }
}

/// Every kind of credential found in `text`, each once, in rule order.
pub open spec fn found_kinds(text: Seq<char>) -> Seq<Seq<char>> {
    let tokens = kinds_upto(text, 5);
    if has_private_key(text) {
        tokens.push("private-key"@)
    } else {
        tokens
    }
}

fn kind_of(r: usize) -> (k: &'static str)
    requires
        r < 5,
    ensures
        k@ == rule_kind(r as int),
{
    if r == 0 {
        "openai-api-key"
    } else if r == 1 {
        "github-token"
    } else if r == 2 {
        "github-pat"
    } else if r == 3 {
        "aws-access-key"
    } else {
        "slack-token"
    }
}

fn prefixes_of(r: usize) -> (ps: Vec<Vec<char>>)
    requires
        r < 5,
    ensures
        ps@.len() == rule_prefixes(r as int).len(),
        forall|k: int| 0 <= k < ps@.len() ==> #[trigger] ps@[k]@ == rule_prefixes(r as int)[k],
{
    let mut ps: Vec<Vec<char>> = Vec::new();
    if r == 0 {
        ps.push(chars_of("sk-"));
    } else if r == 1 {
        ps.push(chars_of("ghp_"));
        ps.push(chars_of("gho_"));
        ps.push(chars_of("ghu_"));
        ps.push(chars_of("ghs_"));
        ps.push(chars_of("ghr_"));
    } else if r == 2 {
        ps.push(chars_of("github_pat_"));
    } else if r == 3 {
        ps.push(chars_of("AKIA"));
    } else {
        ps.push(chars_of("xoxb-"));
        ps.push(chars_of("xoxp-"));
        ps.push(chars_of("xoxa-"));
        ps.push(chars_of("xoxr-"));
    }
    ps
}

fn is_body_char(r: usize, c: char) -> (b: bool)
    ensures
        b == body_char(r as int, c),
{
    if r == 0 {
        char_is_alnum(c) || c == '-' || c == '_'
    } else if r == 1 {
        char_is_alnum(c)
    } else if r == 2 {
        char_is_alnum(c) || c == '_'
    } else if r == 3 {
        char_is_upper(c) || char_is_digit(c)
    } else {
        char_is_alnum(c) || c == '-'
    }
}

proof fn lemma_body_run(s: Seq<char>, r: int, i: int)
    requires
        0 <= i <= s.len(),
        forall|j: int| 0 <= j < i ==> body_char(r, #[trigger] s[j]),
        i < s.len() ==> !body_char(r, s[i]),
    ensures
        body_run(s, r) == i,
    decreases i,
{
    if i > 0 {
        assert forall|j: int| 0 <= j < i - 1 implies body_char(r, #[trigger] s.drop_first()[j]) by {
            assert(s.drop_first()[j] == s[j + 1]);
        }
        lemma_body_run(s.drop_first(), r, i - 1);
    }
}

fn token_at_exec(text: &[char], prefix: &[char], r: usize, start: usize) -> (b: bool)
    requires
        r < 5,
    ensures
        b == token_at(text@, prefix@, r as int, start as int),
{
    if !vec_occurs_at(text, prefix, start) {
        return false;
    }
    if start > 0 && char_is_alnum(text[start - 1]) {
        return false;
    }
    let from = start + prefix.len();
    let ghost rest = text@.subrange(from as int, text@.len() as int);
    let mut n: usize = 0;
    while from + n < text.len() && is_body_char(r, text[from + n])
        invariant
            from <= text.len(),
            rest == text@.subrange(from as int, text@.len() as int),
            from + n <= text.len(),
            forall|j: int| 0 <= j < n ==> body_char(r as int, #[trigger] rest[j]),
        decreases text.len() - from - n,
    {
        assert(rest[n as int] == text@[from + n]);
        n = n + 1;
    }
    proof {
        if from + n < text.len() {
            assert(rest[n as int] == text@[from + n]);
        }
        lemma_body_run(rest, r as int, n as int);
    }
    if r == 3 {
        if n != 16 {
            return false;
        }
        let next_alnum = from + 16 < text.len() && char_is_alnum(text[from + 16]);
        proof {
            if from + 16 < text.len() {
                assert(rest[16] == text@[from + 16]);
            }
        }
        !next_alnum
    } else {
        let min: usize = if r == 4 {
            1
        } else {
            20
        };
        n >= min
    }
}

fn has_token_exec(text: &[char], prefix: &[char], r: usize) -> (b: bool)
    requires
        r < 5,
    ensures
        b == has_token(text@, prefix@, r as int),
{
    let mut start: usize = 0;
    while start < text.len()
        invariant
            r < 5,
            start <= text.len(),
            forall|j: int| 0 <= j < start ==> !token_at(text@, prefix@, r as int, j),
        decreases text.len() - start,
    {
        if token_at_exec(text, prefix, r, start) {
            return true;
        }
        start = start + 1;
    }
    if token_at_exec(text, prefix, r, start) {
        return true;
    }
    assert forall|j: int| !token_at(text@, prefix@, r as int, j) by {
        if j > text.len() {
            assert(!occurs_at(text@, prefix@, j));
        }
    }
    false
}

fn rule_matches_exec(text: &[char], r: usize) -> (b: bool)
    requires
        r < 5,
    ensures
        b == rule_matches(text@, r as int),
{
    let ps = prefixes_of(r);
    let mut k: usize = 0;
    while k < ps.len()
        invariant
            r < 5,
            k <= ps@.len(),
            ps@.len() == rule_prefixes(r as int).len(),
            forall|i: int| 0 <= i < ps@.len() ==> #[trigger] ps@[i]@ == rule_prefixes(r as int)[i],
            forall|i: int|
                0 <= i < k ==> !has_token(text@, #[trigger] rule_prefixes(r as int)[i], r as int),
        decreases ps.len() - k,
    {
        if has_token_exec(text, &ps[k], r) {
            assert(ps@[k as int]@ == rule_prefixes(r as int)[k as int]);
            return true;
        }
        k = k + 1;
    }
    false
}

/// Kinds of credentials found in `text`, at most one finding per kind.
pub fn scan(field: &str, text: &str) -> (r: Vec<SecretFinding>)
    ensures
        r@.len() == found_kinds(text@).len(),
        forall|i: int|
            0 <= i < r@.len() ==> (#[trigger] r@[i]).kind@ == found_kinds(text@)[i] && r@[i].field@
                == field@,
{
    let t = chars_of(text);
    let mut out: Vec<SecretFinding> = Vec::new();
    let mut r: usize = 0;
    while r < RULE_COUNT
        invariant
            r <= 5,
            t@ == text@,
            out@.len() == kinds_upto(text@, r as int).len(),
            forall|i: int|
                0 <= i < out@.len() ==> (#[trigger] out@[i]).kind@ == kinds_upto(text@, r as int)[i]
                    && out@[i].field@ == field@,
        decreases 5 - r,
    {
        if rule_matches_exec(&t, r) {
            out.push(SecretFinding { kind: kind_of(r), field: string_of(&chars_of(field)) });
        }
        r = r + 1;
    }
    let begin = chars_of("-----BEGIN ");
    let private = chars_of("PRIVATE KEY-----");
    if vec_contains(&t, &begin) && vec_contains(&t, &private) {
        out.push(SecretFinding { kind: "private-key", field: string_of(&chars_of(field)) });
    }
    out
}

/// The warning shown for a finding; it names the kind and the field only.
pub fn warning_message(finding: &SecretFinding) -> (m: String)
    ensures
        m@ == warning_text(finding.kind@, finding.field@),
{
    let mut m = String::new();
    m.append("possible credential (");
    m.append(finding.kind);
    m.append(") in ");
    m.append(finding.field.as_str());
    m.append("; do not put secrets into ctx-sync context");
    m
}

/// The warning for a credential of `kind` found in `field`.
pub open spec fn warning_text(kind: Seq<char>, field: Seq<char>) -> Seq<char> {
    "possible credential ("@ + kind + ") in "@ + field + "; do not put secrets into ctx-sync context"@
}

/// The warnings for one field, one per kind found.
pub open spec fn field_warnings(field: Seq<char>, text: Seq<char>) -> Seq<Seq<char>> {
    found_kinds(text).map_values(|k: Seq<char>| warning_text(k, field))
}

/// The warnings for `(field, text)` pairs, field by field.
pub open spec fn fields_warnings(fields: Seq<(Seq<char>, Seq<char>)>) -> Seq<Seq<char>>
    decreases fields.len(),
{
    if fields.len() == 0 {
        Seq::empty()
    } else {
        fields_warnings(fields.drop_last()) + field_warnings(fields.last().0, fields.last().1)
    }
}

/// Appends the warnings for `text` found in `field`.
pub fn push_warnings(out: &mut Vec<String>, field: &str, text: &str)
    ensures
        sv(final(out)@) == sv(old(out)@) + field_warnings(field@, text@),
{
    let found = scan(field, text);
    let ghost start = sv(out@);
    let ghost kinds = found_kinds(text@);
    let mut i: usize = 0;
    while i < found.len()
        invariant
            i <= found.len(),
            found@.len() == kinds.len(),
            kinds == found_kinds(text@),
            forall|j: int| 0 <= j < found@.len() ==> (#[trigger] found@[j]).kind@ == kinds[j] && found@[j].field@ == field@,
            sv(out@) == start + field_warnings(field@, text@).take(i as int),
        decreases found.len() - i,
    {
        let m = warning_message(&found[i]);
        let ghost before = out@;
        out.push(m);
        assert(sv(out@) =~= sv(before).push(m@));
        assert(field_warnings(field@, text@).take(i + 1) =~= field_warnings(field@, text@).take(i as int).push(m@));
        i = i + 1;
    }
    assert(field_warnings(field@, text@).take(found.len() as int) =~= field_warnings(field@, text@));
}

/// One `(field, text)` pair when there is a text.
pub open spec fn opt_fields(name: Seq<char>, o: Option<Seq<char>>) -> Seq<(Seq<char>, Seq<char>)> {
    match o {
        Some(t) => seq![(name, t)],
        None => Seq::empty(),
    }
}

pub proof fn lemma_fields_warnings_append(a: Seq<(Seq<char>, Seq<char>)>, b: Seq<(Seq<char>, Seq<char>)>)
    ensures
        fields_warnings(a + b) == fields_warnings(a) + fields_warnings(b),
    decreases b.len(),
{
    if b.len() == 0 {
        assert(a + b =~= a);
        assert(fields_warnings(a) + fields_warnings(b) =~= fields_warnings(a));
    } else {
        lemma_fields_warnings_append(a, b.drop_last());
        assert((a + b).drop_last() =~= a + b.drop_last());
        assert((a + b).last() == b.last());
    }
}

/// Appends the warnings for an optional text.
pub fn push_opt_warnings(out: &mut Vec<String>, name: &str, value: &Option<String>)
    ensures
        sv(final(out)@) == sv(old(out)@) + fields_warnings(opt_fields(name@, opt_view(*value))),
{
    match value {
        Some(t) => {
            push_warnings(out, name, t.as_str());
            proof {
                let f = opt_fields(name@, opt_view(*value));
                assert(f.len() == 1 && f.last() == (name@, t@));
                assert(f.drop_last() =~= Seq::<(Seq<char>, Seq<char>)>::empty());
                assert(fields_warnings(f.drop_last()) == Seq::<Seq<char>>::empty());
                assert(fields_warnings(f) =~= field_warnings(name@, t@));
            }
        },
        None => {
            assert(sv(out@) =~= sv(out@) + Seq::<Seq<char>>::empty());
        },
    }
}

/// The kinds of credentials `scan` reports.
pub open spec fn known_kinds() -> Seq<Seq<char>> {
    seq!["openai-api-key"@, "github-token"@, "github-pat"@, "aws-access-key"@, "slack-token"@, "private-key"@]
}

proof fn lemma_kinds_upto_known(text: Seq<char>, n: int)
    requires
        n <= 5,
    ensures
        forall|i: int| 0 <= i < kinds_upto(text, n).len() ==> known_kinds().contains(#[trigger] kinds_upto(text, n)[i]),
    decreases n,
{
    if n > 0 {
        lemma_kinds_upto_known(text, n - 1);
        let k = rule_kind(n - 1);
        assert(known_kinds().contains(k)) by {
            if n - 1 == 0 { assert(known_kinds()[0] == k); }
            else if n - 1 == 1 { assert(known_kinds()[1] == k); }
            else if n - 1 == 2 { assert(known_kinds()[2] == k); }
            else if n - 1 == 3 { assert(known_kinds()[3] == k); }
            else { assert(known_kinds()[4] == k); }
        }
        let r = kinds_upto(text, n - 1);
        assert forall|i: int| 0 <= i < kinds_upto(text, n).len() implies known_kinds().contains(#[trigger] kinds_upto(text, n)[i]) by {
            if rule_matches(text, n - 1) {
                assert(kinds_upto(text, n) == r.push(k));
                if i < r.len() {
                    assert(kinds_upto(text, n)[i] == r[i]);
                }
            } else {
                assert(kinds_upto(text, n) == r);
            }
        }
    }
}

/// A warning names the kind of credential and the field, never the text it
/// was found in: each one is the fixed message of a kind found, and every
/// kind found is one of the known kinds.
pub proof fn lemma_warnings_hide_the_text(field: Seq<char>, text: Seq<char>)
    ensures
        field_warnings(field, text).len() == found_kinds(text).len(),
        forall|i: int| 0 <= i < field_warnings(field, text).len() ==> #[trigger] field_warnings(field, text)[i]
            == warning_text(found_kinds(text)[i], field) && known_kinds().contains(found_kinds(text)[i]),
{
    lemma_kinds_upto_known(text, 5);
    assert(known_kinds()[5] == "private-key"@);
    assert forall|i: int| 0 <= i < field_warnings(field, text).len() implies #[trigger] field_warnings(field, text)[i]
        == warning_text(found_kinds(text)[i], field) && known_kinds().contains(found_kinds(text)[i]) by {
        let ks = found_kinds(text);
        if i < kinds_upto(text, 5).len() {
            assert(ks[i] == kinds_upto(text, 5)[i]);
        } else {
            assert(ks[i] == "private-key"@);
        }
    }
}

} // verus!
