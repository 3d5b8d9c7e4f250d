//! The entity store: every loaded mark, its availability flag, and the two
//! derived index sets of distinct categories and distinct tags.

use vstd::prelude::*;
use crate::mark::{seq_has_str, strs_distinct, Mark};

verus! {

/// The catalog of marks. `marks[i]` is available exactly when `available[i]`.
///
/// Order of `marks` is display and draw-priority order; lookups are linear.
#[derive(Debug)]
pub struct Library {
    pub marks: Vec<Mark>,
    pub available: Vec<bool>,
    /// The distinct non-empty categories appearing on any mark.
    pub categories: Vec<String>,
    /// The distinct tags appearing on any mark.
    pub tags: Vec<String>,
}

impl Library {
    /// Structural soundness: one flag per mark, index sets distinct, and
    /// every category and tag on a mark present in its index set.
    pub open spec fn wf(self) -> bool {
        &&& self.available@.len() == self.marks@.len()
        &&& strs_distinct(self.categories@)
        &&& forall|i: int|
            0 <= i < self.categories@.len() ==> self.categories@[i]@ != Seq::<char>::empty()
        &&& strs_distinct(self.tags@)
        &&& forall|k: int| 0 <= k < self.marks@.len() ==> strs_distinct(self.marks@[k].tags@)
        &&& forall|k: int|
            0 <= k < self.marks@.len() && self.marks@[k].category@ != Seq::<char>::empty()
                ==> seq_has_str(self.categories@, self.marks@[k].category@)
        &&& forall|k: int, j: int|
            0 <= k < self.marks@.len() && 0 <= j < self.marks@[k].tags@.len() ==> seq_has_str(
                self.tags@,
                self.marks@[k].tags@[j]@,
            )
    }

    /// An empty library.
    pub fn new() -> (r: Library)
        ensures
            r.wf(),
            r.marks@.len() == 0,
            r.categories@.len() == 0,
            r.tags@.len() == 0,
    {
        Library { marks: Vec::new(), available: Vec::new(), categories: Vec::new(), tags: Vec::new() }
    }

    /// Flip the availability flag of the mark at `i`; nothing else changes.
    ///
    /// Only an explicit user toggle mutates availability; sampling never does.
    pub fn toggle_available(&mut self, i: usize)
        requires
            old(self).wf(),
            i < old(self).marks@.len(),
        ensures
            final(self).wf(),
            final(self).marks@ == old(self).marks@,
            final(self).categories@ == old(self).categories@,
            final(self).tags@ == old(self).tags@,
            final(self).available@ == old(self).available@.update(
                i as int,
                !old(self).available@[i as int],
            ),
    {
        let b = self.available[i];
        self.available.set(i, !b);
    }
}

} // verus!
