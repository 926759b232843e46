//! The name of a Python requirement, stated over every requirement text.

use vstd::prelude::*;

use crate::bootstrap::manifest::{requirement_name, requirement_names};

verus! {

/// The name of a requirement is its longest prefix made of ASCII letters,
/// digits, `-`, `_` and `.` (`python-dotenv>=1.0` → `python-dotenv`); a
/// requirement made only of such characters is its own name.
pub proof fn lemma_requirement_name_prefix(s: Seq<char>)
    ensures
        requirement_name(s).len() <= s.len(),
        requirement_name(s) == s.subrange(0, requirement_name(s).len() as int),
        forall|i: int| 0 <= i < requirement_name(s).len() ==> {
            let c = #[trigger] requirement_name(s)[i];
            ('a' <= c <= 'z') || ('A' <= c <= 'Z') || ('0' <= c <= '9') || c == '-' || c == '_' || c == '.'
        },
        requirement_name(s).len() < s.len() ==> {
            let c = s[requirement_name(s).len() as int];
            !(('a' <= c <= 'z') || ('A' <= c <= 'Z') || ('0' <= c <= '9') || c == '-' || c == '_' || c == '.')
        },
    decreases s.len(),
{
    if s.len() > 0 && requirement_name(s).len() > 0 {
        let t = s.drop_first();
        lemma_requirement_name_prefix(t);
        let n = requirement_name(t);
        assert(requirement_name(s) == seq![s[0]] + n);
        assert(t.subrange(0, n.len() as int) =~= s.subrange(1, n.len() as int + 1));
        assert(requirement_name(s) =~= s.subrange(0, n.len() as int + 1));
        assert forall|i: int| 0 <= i < requirement_name(s).len() implies {
            let c = #[trigger] requirement_name(s)[i];
            ('a' <= c <= 'z') || ('A' <= c <= 'Z') || ('0' <= c <= '9') || c == '-' || c == '_' || c == '.'
        } by {
            if i > 0 {
                assert(requirement_name(s)[i] == n[i - 1]);
            }
        }
        if n.len() < t.len() {
            assert(s[n.len() as int + 1] == t[n.len() as int]);
        }
    } else {
        assert(s.subrange(0, 0) =~= Seq::<char>::empty());
    }
}

/// The dependency names are the names of the requirements, in order, with
/// the empty ones left out.
pub proof fn lemma_requirement_names(specs: Seq<Seq<char>>)
    ensures
        requirement_names(specs) == specs.map_values(|s: Seq<char>| requirement_name(s)).filter(
            |n: Seq<char>| n.len() > 0,
        ),
    decreases specs.len(),
{
    let f = |s: Seq<char>| requirement_name(s);
    let pred = |n: Seq<char>| n.len() > 0;
    if specs.len() == 0 {
        reveal(Seq::filter);
        assert(specs.map_values(f) =~= Seq::<Seq<char>>::empty());
    } else {
        let d = specs.drop_last();
        lemma_requirement_names(d);
        assert(specs.map_values(f) =~= d.map_values(f).push(requirement_name(specs.last())));
        d.map_values(f).lemma_filter_push(requirement_name(specs.last()), pred);
    }
}

} // verus!
