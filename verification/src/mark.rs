//! Marks — the catalog items — and helpers over their tag lists.

use vstd::prelude::*;
use crate::power::Power;

verus! {

/// One catalog item. Immutable once loaded into a library.
#[derive(Debug)]
pub struct Mark {
    /// Unique key within a library.
    pub name: String,
    pub power: Power,
    /// May be empty; an empty category only matches an explicit empty constraint.
    pub category: String,
    /// Distinct free-form tags.
    pub tags: Vec<String>,
    pub description: String,
}

/// The character sequences of a list of strings.
pub open spec fn str_views(v: Seq<String>) -> Seq<Seq<char>> {
    v.map_values(|s: String| s@)
}

/// Whether some string in `v` reads `x`.
pub open spec fn seq_has_str(v: Seq<String>, x: Seq<char>) -> bool {
    exists|i: int| 0 <= i < v.len() && v[i]@ == x
}

/// Whether the strings in `v` are pairwise distinct by content.
pub open spec fn strs_distinct(v: Seq<String>) -> bool {
    forall|i: int, j: int| 0 <= i < j < v.len() ==> v[i]@ != v[j]@
}

/// Distinctness by content is distinctness of the views.
pub proof fn lemma_strs_distinct_views(v: Seq<String>)
    ensures
        strs_distinct(v) <==> str_views(v).no_duplicates(),
{
    assert(str_views(v).len() == v.len());
    if strs_distinct(v) {
        assert forall|i: int, j: int|
            0 <= i < v.len() && 0 <= j < v.len() && i != j implies str_views(v)[i] != str_views(
            v,
        )[j] by {
            assert(str_views(v)[i] == v[i]@);
            assert(str_views(v)[j] == v[j]@);
            if i < j {
                assert(v[i]@ != v[j]@);
            } else {
                assert(v[j]@ != v[i]@);
            }
        }
        assert(str_views(v).no_duplicates());
    }
    if str_views(v).no_duplicates() {
        assert forall|i: int, j: int| 0 <= i < j < v.len() implies v[i]@ != v[j]@ by {
            assert(str_views(v)[i] == v[i]@);
            assert(str_views(v)[j] == v[j]@);
            assert(str_views(v)[i] != str_views(v)[j]);
        }
        assert(strs_distinct(v));
    }
}

/// Whether two marks agree in every field, compared by content.
pub open spec fn mark_like(a: Mark, b: Mark) -> bool {
    &&& a.name@ == b.name@
    &&& a.power == b.power
    &&& a.category@ == b.category@
    &&& str_views(a.tags@) == str_views(b.tags@)
    &&& a.description@ == b.description@
}

/// Whether the mark carries the tag `t`.
pub open spec fn mark_has_tag(m: Mark, t: Seq<char>) -> bool {
    seq_has_str(m.tags@, t)
}

/// Whether some string in `v` equals `x`, by content.
pub fn contains_str(v: &Vec<String>, x: &String) -> (r: bool)
    ensures
        r == seq_has_str(v@, x@),
{
    let mut k: usize = 0;
    while k < v.len()
        invariant
            k <= v@.len(),
            forall|i: int| 0 <= i < k ==> v@[i]@ != x@,
        decreases v@.len() - k,
    {
        if v[k] == *x {
            return true;
        }
        k += 1;
    }
    false
}

/// A copy of `v` with every string cloned.
pub fn clone_strings(v: &Vec<String>) -> (r: Vec<String>)
    ensures
        str_views(r@) == str_views(v@),
        r@.len() == v@.len(),
        forall|i: int| 0 <= i < v@.len() ==> r@[i]@ == v@[i]@,
{
    let mut out: Vec<String> = Vec::new();
    let mut k: usize = 0;
    while k < v.len()
        invariant
            k <= v@.len(),
            out@.len() == k,
            forall|i: int| 0 <= i < k ==> out@[i]@ == v@[i]@,
        decreases v@.len() - k,
    {
        out.push(v[k].clone());
        k += 1;
    }
    proof {
        assert(str_views(out@) =~= str_views(v@));
    }
    out
}

impl Mark {
    /// A field-by-field copy of this mark.
    pub fn duplicate(&self) -> (r: Mark)
        ensures
            mark_like(r, *self),
            r.tags@.len() == self.tags@.len(),
    {
        Mark {
            name: self.name.clone(),
            power: self.power,
            category: self.category.clone(),
            tags: clone_strings(&self.tags),
            description: self.description.clone(),
        }
    }
}

/// The name every placeholder mark carries.
pub open spec fn sentinel_name() -> Seq<char> {
    "STUPID"@
}

/// Whether `m` is the fixed placeholder substituted when a draw's pool is empty.
pub open spec fn is_sentinel(m: Mark) -> bool {
    &&& m.name@ == sentinel_name()
    &&& m.power == Power::Poor
    &&& m.category@ == Seq::<char>::empty()
    &&& m.tags@.len() == 0
    &&& m.description@ == Seq::<char>::empty()
}

/// The fixed placeholder mark used when no mark qualifies for a draw.
pub fn sentinel_mark() -> (m: Mark)
    ensures
        is_sentinel(m),
{
    Mark {
        name: "STUPID".to_owned(),
        power: Power::Poor,
        category: String::new(),
        tags: Vec::new(),
        description: String::new(),
    }
}

} // verus!
