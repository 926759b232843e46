//! Lexicographic order and a stable sort over it.

use vstd::multiset::Multiset;
use vstd::prelude::*;

verus! {

broadcast use vstd::seq_lib::group_to_multiset_ensures;

/// Lexicographic "less than" on integer sequences (a proper prefix is smaller).
pub open spec fn seq_lt(a: Seq<int>, b: Seq<int>) -> bool
    decreases a.len(),
{
    if a.len() == 0 {
        b.len() > 0
    } else if b.len() == 0 {
        false
    } else if a[0] < b[0] {
        true
    } else if a[0] > b[0] {
        false
    } else {
        seq_lt(a.drop_first(), b.drop_first())
    }
}

pub proof fn lemma_seq_lt_irreflexive(a: Seq<int>)
    ensures
        !seq_lt(a, a),
    decreases a.len(),
{
    if a.len() > 0 {
        lemma_seq_lt_irreflexive(a.drop_first());
    }
}

pub proof fn lemma_seq_lt_transitive(a: Seq<int>, b: Seq<int>, c: Seq<int>)
    requires
        seq_lt(a, b),
        seq_lt(b, c),
    ensures
        seq_lt(a, c),
    decreases a.len(),
{
    if a.len() > 0 && b.len() > 0 && c.len() > 0 && a[0] == b[0] && b[0] == c[0] {
        lemma_seq_lt_transitive(a.drop_first(), b.drop_first(), c.drop_first());
    }
}

/// Characters as integers (their code points), for ordering text.
pub open spec fn char_codes(s: Seq<char>) -> Seq<int> {
    s.map_values(|c: char| (c as u32) as int)
}

/// Whether `a` comes before `b` (code point order, which is also the byte
/// order of their UTF-8 encoding).
pub fn text_before(a: &[char], b: &[char]) -> (r: bool)
    ensures
        r == seq_lt(char_codes(a@), char_codes(b@)),
{
    let mut i: usize = 0;
    while i < a.len() && i < b.len() && a[i] == b[i]
        invariant
            i <= a.len(),
            i <= b.len(),
            forall|j: int| 0 <= j < i ==> a@[j] == b@[j],
        decreases a.len() - i,
    {
        i = i + 1;
    }
    let ghost ca = char_codes(a@);
    let ghost cb = char_codes(b@);
    proof {
        lemma_seq_lt_skip(ca, cb, i as int);
    }
    let ghost sa = ca.subrange(i as int, ca.len() as int);
    let ghost sb = cb.subrange(i as int, cb.len() as int);
    if i == a.len() {
        assert(sa.len() == 0);
        i < b.len()
    } else if i == b.len() {
        assert(sb.len() == 0 && sa.len() > 0);
        false
    } else {
        assert(sa[0] == (a@[i as int] as u32) as int && sb[0] == (b@[i as int] as u32) as int);
        assert(a@[i as int] != b@[i as int]);
        proof {
            vstd::utf8::char_u32_cast(a@[i as int], a@[i as int] as u32);
            vstd::utf8::char_u32_cast(b@[i as int], b@[i as int] as u32);
        }
        (a[i] as u32) < (b[i] as u32)
    }
}

/// Equal first `i` elements can be skipped.
pub proof fn lemma_seq_lt_skip(a: Seq<int>, b: Seq<int>, i: int)
    requires
        0 <= i <= a.len(),
        i <= b.len(),
        forall|j: int| 0 <= j < i ==> a[j] == b[j],
    ensures
        seq_lt(a, b) == seq_lt(a.subrange(i, a.len() as int), b.subrange(i, b.len() as int)),
    decreases i,
{
    if i > 0 {
        assert(a[0] == b[0]);
        lemma_seq_lt_skip(a.drop_first(), b.drop_first(), i - 1);
        assert(a.drop_first().subrange(i - 1, a.len() - 1) =~= a.subrange(i, a.len() as int));
        assert(b.drop_first().subrange(i - 1, b.len() - 1) =~= b.subrange(i, b.len() as int));
    } else {
        assert(a.subrange(0, a.len() as int) =~= a);
        assert(b.subrange(0, b.len() as int) =~= b);
    }
}

/// Values ordered by a lexicographic key.
pub trait SortKey: Sized {
    spec fn sort_key(&self) -> Seq<int>;

    fn key_before(&self, other: &Self) -> (r: bool)
        ensures
            r == seq_lt(self.sort_key(), other.sort_key()),
    ;
}

/// No element has a key below that of an element before it.
pub open spec fn sorted_by_key<T: SortKey>(s: Seq<T>) -> bool {
    forall|i: int, j: int| 0 <= i < j < s.len() ==> !seq_lt(#[trigger] s[j].sort_key(), #[trigger] s[i].sort_key())
}

/// Sorts by key, keeping the order of elements with equal keys.
pub fn sort_by_key<T: SortKey>(v: Vec<T>) -> (r: Vec<T>)
    ensures
        r@.to_multiset() == v@.to_multiset(),
        r@.len() == v@.len(),
        sorted_by_key(r@),
{
    let ghost orig = v@;
    let mut rest = v;
    let mut out: Vec<T> = Vec::new();
    while rest.len() > 0
        invariant
            out@.to_multiset().add(rest@.to_multiset()) == orig.to_multiset(),
            out@.len() + rest@.len() == orig.len(),
            sorted_by_key(out@),
        decreases rest.len(),
    {
        let ghost rest_before = rest@;
        let x = rest.remove(0);
        proof {
            vstd::seq_lib::to_multiset_remove(rest_before, 0);
        }
        let mut p: usize = 0;
        while p < out.len() && !x.key_before(&out[p])
            invariant
                p <= out.len(),
                forall|i: int| 0 <= i < p ==> !seq_lt(x.sort_key(), #[trigger] out@[i].sort_key()),
            decreases out.len() - p,
        {
            p = p + 1;
        }
        let ghost out_before = out@;
        out.insert(p, x);
        proof {
            vstd::seq_lib::to_multiset_insert(out_before, p as int, x);
            assert(out@ == out_before.insert(p as int, x));
            assert forall|i: int, j: int| 0 <= i < j < out@.len() implies !seq_lt(
                #[trigger] out@[j].sort_key(),
                #[trigger] out@[i].sort_key(),
            ) by {
                if j < p {
                    assert(out@[i] == out_before[i] && out@[j] == out_before[j]);
                } else if j == p {
                    assert(out@[i] == out_before[i]);
                } else if i == p {
                    // x before out_before[p] ... out_before[j - 1]
                    assert(out@[j] == out_before[j - 1]);
                    assert(seq_lt(x.sort_key(), out_before[p as int].sort_key()));
                    if seq_lt(out_before[j - 1].sort_key(), x.sort_key()) {
                        lemma_seq_lt_transitive(
                            out_before[j - 1].sort_key(),
                            x.sort_key(),
                            out_before[p as int].sort_key(),
                        );
                        if j - 1 == p {
                            lemma_seq_lt_irreflexive(out_before[p as int].sort_key());
                        }
                    }
                } else if i < p {
                    assert(out@[i] == out_before[i] && out@[j] == out_before[j - 1]);
                } else {
                    assert(out@[i] == out_before[i - 1] && out@[j] == out_before[j - 1]);
                }
            }
            assert(out@.to_multiset().add(rest@.to_multiset()) =~= orig.to_multiset());
        }
    }
    proof {
        assert(rest@.to_multiset() =~= Multiset::<T>::empty());
        assert(out@.to_multiset() =~= orig.to_multiset());
    }
    out
}

/// Mapping keeps two sequences with the same elements the same as multisets.
pub proof fn lemma_multiset_map<A, B>(a: Seq<A>, b: Seq<A>, f: spec_fn(A) -> B)
    requires
        a.to_multiset() == b.to_multiset(),
    ensures
        a.map_values(f).to_multiset() == b.map_values(f).to_multiset(),
    decreases a.len(),
{
    broadcast use vstd::multiset::group_multiset_axioms;

    if a.len() == 0 {
        vstd::seq_lib::to_multiset_len(a);
        vstd::seq_lib::to_multiset_len(b);
        assert(b.len() == 0);
        assert(a.map_values(f) =~= b.map_values(f));
    } else {
        let x = a[0];
        assert(a.to_multiset().count(x) > 0);
        assert(b.contains(x));
        let j = choose|j: int| 0 <= j < b.len() && b[j] == x;
        let b2 = b.remove(j);
        vstd::seq_lib::to_multiset_remove(b, j);
        vstd::seq_lib::to_multiset_remove(a, 0);
        assert(a.remove(0) =~= a.drop_first());
        lemma_multiset_map(a.drop_first(), b2, f);
        let ma = a.map_values(f);
        let mb = b.map_values(f);
        assert(ma.remove(0) =~= a.drop_first().map_values(f));
        assert(mb.remove(j) =~= b2.map_values(f));
        vstd::seq_lib::to_multiset_remove(ma, 0);
        vstd::seq_lib::to_multiset_remove(mb, j);
        assert(ma[0] == f(x) && mb[j] == f(x));
        assert(ma.to_multiset().count(f(x)) > 0);
        assert(mb.to_multiset().count(f(x)) > 0);
        assert(ma.to_multiset() =~= ma.to_multiset().remove(f(x)).insert(f(x)));
        assert(mb.to_multiset() =~= mb.to_multiset().remove(f(x)).insert(f(x)));
    }
}

} // verus!
