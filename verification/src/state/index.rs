//! `index.json`: which project each attached Gist belongs to.
//!
//! Each Gist ID occurs once. Reading and writing the file (which lists the
//! entries sorted by Gist ID) happen outside the library.

use vstd::prelude::*;

use crate::text::{chars_of, str_eq};

verus! {

#[derive(Debug, Clone, PartialEq)]
pub struct Index {
    /// `(gist id, project id)`.
    pub projects: Vec<(String, u128)>,
}

/// No Gist ID occurs twice.
pub open spec fn index_wf(v: Seq<(String, u128)>) -> bool {
    forall|i: int, j: int| 0 <= i < j < v.len() ==> (#[trigger] v[i]).0@ != (#[trigger] v[j]).0@
}

pub open spec fn has_gist(v: Seq<(String, u128)>, k: Seq<char>) -> bool {
    exists|i: int| 0 <= i < v.len() && v[i].0@ == k
}

/// The Gist → project map the entries stand for.
pub open spec fn index_map(v: Seq<(String, u128)>) -> Map<Seq<char>, u128> {
    Map::new(
        |k: Seq<char>| has_gist(v, k),
        |k: Seq<char>| v[choose|i: int| 0 <= i < v.len() && v[i].0@ == k].1,
    )
}

proof fn lemma_index_value(v: Seq<(String, u128)>, i: int)
    requires
        index_wf(v),
        0 <= i < v.len(),
    ensures
        index_map(v).contains_key(v[i].0@),
        index_map(v)[v[i].0@] == v[i].1,
{
    let k = v[i].0@;
    assert(has_gist(v, k));
    let j = choose|j: int| 0 <= j < v.len() && v[j].0@ == k;
    if j != i {
        if j < i {
            assert(v[j].0@ != v[i].0@);
        } else {
            assert(v[i].0@ != v[j].0@);
        }
    }
}

/// Where `gist_id` is.
fn position(v: &Vec<(String, u128)>, gist_id: &str) -> (r: Option<usize>)
    ensures
        match r {
            Some(i) => i < v@.len() && v@[i as int].0@ == gist_id@,
            None => !has_gist(v@, gist_id@),
        },
{
    let key = chars_of(gist_id);
    let mut i: usize = 0;
    while i < v.len()
        invariant
            i <= v.len(),
            key@ == gist_id@,
            forall|j: int| 0 <= j < i ==> v@[j].0@ != gist_id@,
        decreases v.len() - i,
    {
        if str_eq(v[i].0.as_str(), &key) {
            return Some(i);
        }
        i = i + 1;
    }
    None
}

impl Index {
    /// An index with no project.
    pub fn new() -> (r: Index)
        ensures
            r.projects@.len() == 0,
    {
        Index { projects: Vec::new() }
    }

    /// The project of a Gist.
    pub fn get(&self, gist_id: &str) -> (r: Option<u128>)
        requires
            index_wf(self.projects@),
        ensures
            match r {
                Some(p) => index_map(self.projects@).contains_key(gist_id@) && index_map(self.projects@)[gist_id@] == p,
                None => !index_map(self.projects@).contains_key(gist_id@),
            },
    {
        let key = chars_of(gist_id);
        let mut i: usize = 0;
        while i < self.projects.len()
            invariant
                i <= self.projects.len(),
                key@ == gist_id@,
                index_wf(self.projects@),
                forall|j: int| 0 <= j < i ==> self.projects@[j].0@ != gist_id@,
            decreases self.projects.len() - i,
        {
            if str_eq(self.projects[i].0.as_str(), &key) {
                proof {
                    lemma_index_value(self.projects@, i as int);
                }
                return Some(self.projects[i].1);
            }
            i = i + 1;
        }
        None
    }

    /// Records that `gist_id` belongs to `project_id`, replacing an earlier
    /// project of the same Gist.
    pub fn insert(&mut self, gist_id: &str, project_id: u128)
        requires
            index_wf(old(self).projects@),
        ensures
            index_wf(final(self).projects@),
            index_map(final(self).projects@) == index_map(old(self).projects@).insert(gist_id@, project_id),
    {
        let ghost before = self.projects@;
        let found = position(&self.projects, gist_id);
        let entry = (String::from_str(gist_id), project_id);
        let i: usize = match found {
            Some(i) => {
                self.projects.set(i, entry);
                i
            },
            None => {
                let n = self.projects.len();
                self.projects.push(entry);
                n
            },
        };
        let ghost after = self.projects@;
        proof {
            assert forall|a: int, b: int| 0 <= a < b < after.len() implies (#[trigger] after[a]).0@ != (#[trigger] after[b]).0@ by {
                if a != i && b != i {
                    assert(after[a] == before[a] && after[b] == before[b]);
                } else if a == i {
                    assert(after[b] == before[b]);
                } else {
                    assert(after[a] == before[a]);
                }
            }
            assert forall|k: Seq<char>| #![auto] index_map(after).contains_key(k) == index_map(before).insert(gist_id@, project_id).contains_key(k) by {
                if k == gist_id@ {
                    assert(after[i as int].0@ == k);
                } else {
                    if has_gist(after, k) {
                        let j = choose|j: int| 0 <= j < after.len() && after[j].0@ == k;
                        assert(j != i);
                        assert(after[j] == before[j]);
                    }
                    if has_gist(before, k) {
                        let j = choose|j: int| 0 <= j < before.len() && before[j].0@ == k;
                        assert(j != i);
                        assert(after[j] == before[j]);
                    }
                }
            }
            assert forall|k: Seq<char>| #[trigger] index_map(after).contains_key(k) implies index_map(after)[k]
                == index_map(before).insert(gist_id@, project_id)[k] by {
                let j = choose|j: int| 0 <= j < after.len() && after[j].0@ == k;
                lemma_index_value(after, j);
                if k != gist_id@ {
                    assert(j != i);
                    assert(after[j] == before[j]);
                    lemma_index_value(before, j);
                } else {
                    lemma_index_value(after, i as int);
                }
            }
            assert(index_map(after) =~= index_map(before).insert(gist_id@, project_id));
        }
    }
}

} // verus!
