//! Draw specifications: the filter describing one slot of a draft.

use vstd::prelude::*;
use crate::mark::{seq_has_str, strs_distinct};
use crate::power::Power;

verus! {

/// One slot to be randomly filled: an optional power constraint, an optional
/// category constraint, and the tags the drawn mark must carry.
#[derive(Debug)]
pub struct Draw {
    pub power: Option<Power>,
    pub category: Option<String>,
    /// Kept pairwise distinct by every editor operation.
    pub tags: Vec<String>,
}

/// Whether the draw's tag list holds no two equal tags.
pub open spec fn draw_tags_distinct(d: Draw) -> bool {
    strs_distinct(d.tags@)
}

/// Whether two draws agree field by field, strings compared by content.
pub open spec fn draw_like(a: Draw, b: Draw) -> bool {
    &&& a.power == b.power
    &&& match (a.category, b.category) {
        (Some(x), Some(y)) => x@ == y@,
        (None, None) => true,
        _ => false,
    }
    &&& a.tags@.len() == b.tags@.len()
    &&& forall|i: int| 0 <= i < a.tags@.len() ==> a.tags@[i]@ == b.tags@[i]@
}

/// Whether the draw carries the tag `t`.
pub open spec fn draw_has_tag(d: Draw, t: Seq<char>) -> bool {
    seq_has_str(d.tags@, t)
}

impl Draw {
    /// A fully unconstrained draw.
    pub fn unconstrained() -> (r: Draw)
        ensures
            r.power is None,
            r.category is None,
            r.tags@.len() == 0,
    {
        Draw { power: None, category: None, tags: Vec::new() }
    }

    /// A field-by-field copy of this draw.
    pub fn duplicate(&self) -> (r: Draw)
        ensures
            draw_like(r, *self),
    {
        Draw {
            power: self.power,
            category: match &self.category {
                Some(c) => Some(c.clone()),
                None => None,
            },
            tags: crate::mark::clone_strings(&self.tags),
        }
    }
}

} // verus!
