//! The results history: an append-only record of executed drafts, with one
//! selected-index cursor that wraps cyclically, and the wrapping cursor
//! arithmetic the mark list shares.

use vstd::prelude::*;
use crate::draw::Draw;
use crate::mark::Mark;

verus! {

/// Past executions: each entry pairs the resolved marks with the draw
/// specifications they came from. Entries are never changed or removed.
#[derive(Debug)]
pub struct Results {
    pub results: Vec<(Vec<Mark>, Vec<Draw>)>,
    /// The entry currently viewed, when any is.
    pub selected: Option<usize>,
}

impl Results {
    /// The selection, when present, points at an entry.
    pub open spec fn wf(self) -> bool {
        self.selected matches Some(i) ==> (i as int) < self.results@.len()
    }

    /// An empty history with nothing selected.
    pub fn new() -> (r: Results)
        ensures
            r.wf(),
            r.results@.len() == 0,
            r.selected is None,
    {
        Results { results: Vec::new(), selected: None }
    }

    /// Append one execution's outcome and select it for viewing.
    pub fn record_execution(&mut self, marks: Vec<Mark>, draws: Vec<Draw>)
        requires
            old(self).wf(),
        ensures
            final(self).wf(),
            final(self).results@ == old(self).results@.push((marks, draws)),
            final(self).selected == Some(old(self).results@.len() as usize),
    {
        let n = self.results.len();
        self.results.push((marks, draws));
        self.selected = Some(n);
    }

    /// Move the viewed index one entry forward, wrapping from the last
    /// entry to the first; with nothing yet selected the first entry is
    /// selected. On an empty history this is a no-op (there is nothing to
    /// select).
    pub fn next_selection(&mut self)
        requires
            old(self).wf(),
        ensures
            final(self).wf(),
            final(self).results == old(self).results,
            final(self).selected == (if old(self).results@.len() == 0 {
                old(self).selected
            } else {
                match old(self).selected {
                    None => Some(0usize),
                    Some(i) => Some(
                        (if i + 1 < old(self).results@.len() {
                            (i + 1) as usize
                        } else {
                            0usize
                        }),
                    ),
                }
            }),
    {
        if self.results.len() == 0 {
            return ;
        }
        self.selected = match self.selected {
            None => Some(0),
            Some(i) => Some(
                if i + 1 < self.results.len() {
                    i + 1
                } else {
                    0
                },
            ),
        };
    }

    /// Move the viewed index one entry backward, wrapping from the first
    /// entry to the last; with nothing yet selected the first entry is
    /// selected. On an empty history this is a no-op.
    pub fn prev_selection(&mut self)
        requires
            old(self).wf(),
        ensures
            final(self).wf(),
            final(self).results == old(self).results,
            final(self).selected == (if old(self).results@.len() == 0 {
                old(self).selected
            } else {
                match old(self).selected {
                    None => Some(0usize),
                    Some(i) => Some(
                        (if i == 0 {
                            (old(self).results@.len() - 1) as usize
                        } else {
                            (i - 1) as usize
                        }),
                    ),
                }
            }),
    {
        if self.results.len() == 0 {
            return ;
        }
        self.selected = match self.selected {
            None => Some(0),
            Some(i) => Some(
                if i == 0 {
                    self.results.len() - 1
                } else {
                    i - 1
                },
            ),
        };
    }
}

/// The next position of a wrapping list cursor over `n` items: advancing
/// from the last position returns to the first, and an empty selection
/// starts at the first position.
pub fn wrap_next(sel: Option<usize>, n: usize) -> (r: usize)
    requires
        sel matches Some(i) ==> (i as int) < n,
    ensures
        r == (match sel {
            None => 0usize,
            Some(i) => (if i + 1 < n {
                (i + 1) as usize
            } else {
                0usize
            }),
        }),
{
    match sel {
        None => 0,
        Some(i) => if i + 1 < n {
            i + 1
        } else {
            0
        },
    }
}

/// The previous position of a wrapping list cursor over `n` items:
/// retreating from the first position jumps to the last.
pub fn wrap_prev(sel: Option<usize>, n: usize) -> (r: usize)
    requires
        sel matches Some(i) ==> (i as int) < n,
    ensures
        r == (match sel {
            None => 0usize,
            Some(i) => (if i == 0 {
                (if n == 0 {
                    0usize
                } else {
                    (n - 1) as usize
                })
            } else {
                (i - 1) as usize
            }),
        }),
{
    match sel {
        None => 0,
        Some(i) => if i == 0 {
            if n == 0 {
                0
            } else {
                n - 1
            }
        } else {
            i - 1
        },
    }
}

} // verus!
