//! The line-addressed draft editor: an ordered list of draw specifications
//! presented as one flat sequence of cursor lines, with element rotation,
//! addition and deletion.

use vstd::prelude::*;
use crate::draw::{draw_tags_distinct, Draw};
use crate::library::Library;
use crate::mark::{seq_has_str, str_views, strs_distinct};
use crate::power::{power_pred, power_succ, Power};
use crate::rotate::{rotate_step, rotate_string, Dir};

verus! {

/// How many cursor lines the draw occupies: one header line, one line per
/// populated optional field, one line per tag.
pub open spec fn draw_lines(d: Draw) -> nat {
    1 + (if d.power is Some {
        1nat
    } else {
        0nat
    }) + (if d.category is Some {
        1nat
    } else {
        0nat
    }) + d.tags@.len()
}

/// The number of cursor lines of a whole draft.
pub open spec fn total_lines(s: Seq<Draw>) -> nat
    decreases s.len(),
{
    if s.len() == 0 {
        0
    } else {
        draw_lines(s[0]) + total_lines(s.skip(1))
    }
}

/// The first cursor line of the draw at position `i`.
pub open spec fn start_line(s: Seq<Draw>, i: int) -> nat {
    total_lines(s.take(i))
}

pub proof fn lemma_total_lines_singleton(d: Draw)
    ensures
        total_lines(seq![d]) == draw_lines(d),
{
    assert(seq![d].skip(1) =~= Seq::<Draw>::empty());
    assert(total_lines(Seq::<Draw>::empty()) == 0);
}

pub proof fn lemma_total_lines_concat(a: Seq<Draw>, b: Seq<Draw>)
    ensures
        total_lines(a + b) == total_lines(a) + total_lines(b),
    decreases a.len(),
{
    if a.len() == 0 {
        assert(a + b =~= b);
    } else {
        assert((a + b).skip(1) =~= a.skip(1) + b);
        lemma_total_lines_concat(a.skip(1), b);
    }
}

/// A draft's lines split at any draw: the lines before it, its own, and the
/// lines after it.
pub proof fn lemma_total_lines_split(s: Seq<Draw>, i: int)
    requires
        0 <= i < s.len(),
    ensures
        total_lines(s) == start_line(s, i) + draw_lines(s[i]) + total_lines(s.skip(i + 1)),
{
    assert(s =~= s.take(i) + (seq![s[i]] + s.skip(i + 1)));
    lemma_total_lines_concat(s.take(i), seq![s[i]] + s.skip(i + 1));
    lemma_total_lines_concat(seq![s[i]], s.skip(i + 1));
    lemma_total_lines_singleton(s[i]);
}

/// Each draw starts exactly its own line count after the one before it.
pub proof fn lemma_start_line_step(s: Seq<Draw>, i: int)
    requires
        0 <= i < s.len(),
    ensures
        start_line(s, i + 1) == start_line(s, i) + draw_lines(s[i]),
{
    assert(s.take(i + 1) =~= s.take(i) + seq![s[i]]);
    lemma_total_lines_concat(s.take(i), seq![s[i]]);
    lemma_total_lines_singleton(s[i]);
}

/// Start lines never decrease along the draft.
pub proof fn lemma_start_line_monotone(s: Seq<Draw>, i: int, j: int)
    requires
        0 <= i <= j <= s.len(),
    ensures
        start_line(s, i) <= start_line(s, j),
    decreases j - i,
{
    if i < j {
        lemma_start_line_step(s, i);
        lemma_start_line_monotone(s, i + 1, j);
    }
}

/// The draw index and in-draw offset owning an absolute cursor line:
/// accumulate each draw's line count until the line falls inside one.
pub open spec fn locate(s: Seq<Draw>, line: nat) -> (int, int)
    decreases s.len(),
{
    if s.len() == 0 {
        (0, 0)
    } else if line < draw_lines(s[0]) {
        (0, line as int)
    } else {
        let r = locate(s.skip(1), (line - draw_lines(s[0])) as nat);
        (r.0 + 1, r.1)
    }
}

/// The round trip of the addressing scheme: every valid line lands inside
/// some draw, at an offset that leads back to exactly that line.
pub proof fn lemma_locate_round_trip(s: Seq<Draw>, line: nat)
    requires
        line < total_lines(s),
    ensures
        0 <= locate(s, line).0 < s.len(),
        0 <= locate(s, line).1 < draw_lines(s[locate(s, line).0]),
        start_line(s, locate(s, line).0) + locate(s, line).1 == line,
    decreases s.len(),
{
    if line < draw_lines(s[0]) {
        assert(s.take(0) =~= Seq::<Draw>::empty());
    } else {
        let rest = s.skip(1);
        let line2 = (line - draw_lines(s[0])) as nat;
        lemma_locate_round_trip(rest, line2);
        let (d2, o2) = locate(rest, line2);
        assert(s.take(d2 + 1) =~= seq![s[0]] + rest.take(d2));
        lemma_total_lines_concat(seq![s[0]], rest.take(d2));
        lemma_total_lines_singleton(s[0]);
        assert(s[d2 + 1] == rest[d2]);
    }
}

/// As the line increases the owning draw index never decreases.
pub proof fn lemma_locate_monotone(s: Seq<Draw>, l1: nat, l2: nat)
    requires
        l1 <= l2 < total_lines(s),
    ensures
        locate(s, l1).0 <= locate(s, l2).0,
    decreases s.len(),
{
    lemma_locate_round_trip(s, l1);
    lemma_locate_round_trip(s, l2);
    if s.len() > 0 && l1 >= draw_lines(s[0]) {
        lemma_locate_monotone(
            s.skip(1),
            (l1 - draw_lines(s[0])) as nat,
            (l2 - draw_lines(s[0])) as nat,
        );
    }
}

/// Replacing one draw changes the draft's line count by the difference of
/// the two draws' line counts.
pub proof fn lemma_total_lines_update(s: Seq<Draw>, i: int, d: Draw)
    requires
        0 <= i < s.len(),
    ensures
        total_lines(s.update(i, d)) == total_lines(s) - draw_lines(s[i]) + draw_lines(d),
{
    assert(s.update(i, d) =~= s.take(i) + (seq![d] + s.skip(i + 1)));
    lemma_total_lines_concat(s.take(i), seq![d] + s.skip(i + 1));
    lemma_total_lines_concat(seq![d], s.skip(i + 1));
    lemma_total_lines_singleton(d);
    lemma_total_lines_split(s, i);
}

/// Deleting the draw at `i` removes exactly its own line count: the draft
/// shrinks by that many lines, draws before `i` keep their start lines, and
/// every later draw's start line shifts down by exactly that count.
pub proof fn lemma_remove_draw_shifts_lines(s: Seq<Draw>, i: int)
    requires
        0 <= i < s.len(),
    ensures
        total_lines(s.remove(i)) == total_lines(s) - draw_lines(s[i]),
        forall|j: int| 0 <= j <= i ==> start_line(s.remove(i), j) == start_line(s, j),
        forall|j: int|
            i < j < s.len() ==> start_line(s.remove(i), j - 1) == start_line(s, j) - draw_lines(
                s[i],
            ),
{
    assert(s.remove(i) =~= s.take(i) + s.skip(i + 1));
    lemma_total_lines_concat(s.take(i), s.skip(i + 1));
    lemma_total_lines_split(s, i);
    assert forall|j: int| 0 <= j <= i implies start_line(s.remove(i), j) == start_line(s, j) by {
        assert(s.remove(i).take(j) =~= s.take(j));
    }
    assert forall|j: int| i < j < s.len() implies start_line(s.remove(i), j - 1) == start_line(
        s,
        j,
    ) - draw_lines(s[i]) by {
        assert(s.remove(i).take(j - 1) =~= s.take(i) + s.subrange(i + 1, j));
        lemma_total_lines_concat(s.take(i), s.subrange(i + 1, j));
        assert(s.take(j) =~= s.take(i) + (seq![s[i]] + s.subrange(i + 1, j)));
        lemma_total_lines_concat(s.take(i), seq![s[i]] + s.subrange(i + 1, j));
        lemma_total_lines_concat(seq![s[i]], s.subrange(i + 1, j));
        lemma_total_lines_singleton(s[i]);
    }
}

/// A draw index and offset that lead back to a line are the ones `locate`
/// finds for it: the addressing is one-to-one.
pub proof fn lemma_locate_unique(s: Seq<Draw>, d: int, o: int)
    requires
        0 <= d < s.len(),
        0 <= o < draw_lines(s[d]),
    ensures
        start_line(s, d) + o < total_lines(s),
        locate(s, (start_line(s, d) + o) as nat) == (d, o),
    decreases s.len(),
{
    let line = (start_line(s, d) + o) as nat;
    lemma_total_lines_split(s, d);
    if d == 0 {
        assert(s.take(0) =~= Seq::<Draw>::empty());
        assert(line < draw_lines(s[0]));
    } else {
        assert(s.take(1) =~= seq![s[0]]);
        lemma_total_lines_singleton(s[0]);
        assert(start_line(s, 1) == draw_lines(s[0]));
        lemma_start_line_monotone(s, 1, d);
        assert(line >= draw_lines(s[0]));
        let rest = s.skip(1);
        assert(rest.take(d - 1) =~= s.take(d).skip(1));
        assert(s.take(d) =~= seq![s[0]] + rest.take(d - 1));
        lemma_total_lines_concat(seq![s[0]], rest.take(d - 1));
        assert(start_line(s, d) == draw_lines(s[0]) + start_line(rest, d - 1));
        assert(rest[d - 1] == s[d]);
        lemma_locate_unique(rest, d - 1, o);
    }
}

/// Whether some library tag is not yet used by the draw's tag list.
pub open spec fn has_unused_tag(lib_tags: Seq<String>, used: Seq<String>) -> bool {
    exists|u: int| 0 <= u < lib_tags.len() && !seq_has_str(used, lib_tags[u]@)
}

/// The position of the first library tag the draw does not use yet.
pub open spec fn first_unused_tag(lib_tags: Seq<String>, used: Seq<String>) -> int
    decreases lib_tags.len(),
{
    if lib_tags.len() == 0 {
        0
    } else if !seq_has_str(used, lib_tags[0]@) {
        0
    } else {
        1 + first_unused_tag(lib_tags.skip(1), used)
    }
}

/// A position whose earlier library tags are all used, and whose own tag is
/// not, is the first unused position.
pub proof fn lemma_first_unused_tag_at(lib_tags: Seq<String>, used: Seq<String>, i: int)
    requires
        0 <= i < lib_tags.len(),
        !seq_has_str(used, lib_tags[i]@),
        forall|j: int| 0 <= j < i ==> seq_has_str(used, lib_tags[j]@),
    ensures
        has_unused_tag(lib_tags, used),
        first_unused_tag(lib_tags, used) == i,
    decreases lib_tags.len(),
{
    if i > 0 {
        assert forall|j: int| 0 <= j < i - 1 implies seq_has_str(
            used,
            lib_tags.skip(1)[j]@,
        ) by {
            assert(lib_tags.skip(1)[j] == lib_tags[j + 1]);
        }
        assert(lib_tags.skip(1)[i - 1] == lib_tags[i]);
        lemma_first_unused_tag_at(lib_tags.skip(1), used, i - 1);
    }
}

/// The kind of element a cursor line addresses within its draw: the header
/// (the implicit mark slot), the power field, the category field, or the
/// tag at a position of the draw's tag list. The in-draw order is fixed:
/// header, then power if present, then category if present, then each tag.
#[derive(Debug, Clone, Copy, PartialEq, Eq, Structural)]
pub enum ElementKind {
    Mark,
    Power,
    Category,
    Tag(usize),
}

/// The kind of element at offset `off` within draw `d`.
pub open spec fn element_kind_at(d: Draw, off: int) -> ElementKind {
    let p: int = if d.power is Some {
        1
    } else {
        0
    };
    let c: int = if d.category is Some {
        1
    } else {
        0
    };
    if off == 0 {
        ElementKind::Mark
    } else if off < 1 + p {
        ElementKind::Power
    } else if off < 1 + p + c {
        ElementKind::Category
    } else {
        ElementKind::Tag((off - 1 - p - c) as usize)
    }
}

/// The editable draft: an ordered list of draw specifications, a current
/// cursor line over their flattened form, and an independent viewport
/// scroll offset.
#[derive(Debug)]
pub struct DraftEditor {
    pub draws: Vec<Draw>,
    pub line: usize,
    pub scroll: usize,
}

impl DraftEditor {
    /// Structural soundness: the flattened form fits the machine, every
    /// draw's tag list is duplicate-free, and the cursor lies on a valid
    /// line (or zero while the draft is empty).
    pub open spec fn wf(self) -> bool {
        &&& total_lines(self.draws@) <= usize::MAX
        &&& forall|i: int| 0 <= i < self.draws@.len() ==> draw_tags_distinct(self.draws@[i])
        &&& if total_lines(self.draws@) == 0 {
            self.line == 0
        } else {
            (self.line as nat) < total_lines(self.draws@)
        }
    }

    /// An empty draft with the cursor at the top.
    pub fn new() -> (r: DraftEditor)
        ensures
            r.wf(),
            r.draws@.len() == 0,
            r.line == 0,
            r.scroll == 0,
    {
        DraftEditor { draws: Vec::new(), line: 0, scroll: 0 }
    }

    /// The number of cursor lines of the whole draft.
    pub fn max_line(&self) -> (r: usize)
        requires
            total_lines(self.draws@) <= usize::MAX,
        ensures
            r as nat == total_lines(self.draws@),
    {
        let ghost s = self.draws@;
        let mut sum: usize = 0;
        let mut i: usize = 0;
        proof {
            assert(s.take(0) =~= Seq::<Draw>::empty());
        }
        while i < self.draws.len()
            invariant
                i <= s.len(),
                s == self.draws@,
                total_lines(s) <= usize::MAX,
                sum as nat == start_line(s, i as int),
            decreases s.len() - i,
        {
            proof {
                lemma_total_lines_split(s, i as int);
                lemma_start_line_step(s, i as int);
            }
            let dl = draw_lines_exec(&self.draws[i]);
            sum = sum + dl;
            i = i + 1;
        }
        proof {
            assert(s.take(s.len() as int) =~= s);
        }
        sum
    }

    /// Move the cursor one line down, clamped to the last line; never wraps.
    pub fn move_down(&mut self)
        requires
            old(self).wf(),
        ensures
            final(self).wf(),
            final(self).draws@ == old(self).draws@,
            final(self).scroll == old(self).scroll,
            final(self).line as nat == (if old(self).line + 1 < total_lines(old(self).draws@) {
                old(self).line + 1
            } else if total_lines(old(self).draws@) == 0 {
                0
            } else {
                total_lines(old(self).draws@) - 1
            }),
    {
        let max = self.max_line();
        if max == 0 {
            self.line = 0;
        } else if self.line + 1 < max {
            self.line = self.line + 1;
        } else {
            self.line = max - 1;
        }
    }

    /// Move the cursor one line up, saturating at the top; never wraps.
    pub fn move_up(&mut self)
        requires
            old(self).wf(),
        ensures
            final(self).wf(),
            final(self).draws@ == old(self).draws@,
            final(self).scroll == old(self).scroll,
            final(self).line == (if old(self).line == 0 {
                0usize
            } else {
                (old(self).line - 1) as usize
            }),
    {
        if self.line > 0 {
            self.line = self.line - 1;
        }
    }

    /// Scroll the viewport one line up, saturating at the top; the cursor
    /// line is unaffected.
    pub fn scroll_up(&mut self)
        requires
            old(self).wf(),
        ensures
            final(self).wf(),
            final(self).draws@ == old(self).draws@,
            final(self).line == old(self).line,
            final(self).scroll == (if old(self).scroll == 0 {
                0usize
            } else {
                (old(self).scroll - 1) as usize
            }),
    {
        if self.scroll > 0 {
            self.scroll = self.scroll - 1;
        }
    }

    /// Scroll the viewport one line down, clamped to the last line exactly
    /// as the cursor is; the cursor line is unaffected.
    pub fn scroll_down(&mut self)
        requires
            old(self).wf(),
        ensures
            final(self).wf(),
            final(self).draws@ == old(self).draws@,
            final(self).line == old(self).line,
            final(self).scroll as nat == (if old(self).scroll + 1 < total_lines(
                old(self).draws@,
            ) {
                old(self).scroll + 1
            } else if total_lines(old(self).draws@) == 0 {
                0
            } else {
                total_lines(old(self).draws@) - 1
            }),
    {
        let max = self.max_line();
        if max == 0 {
            self.scroll = 0;
        } else if self.scroll < max - 1 {
            self.scroll = self.scroll + 1;
        } else {
            self.scroll = max - 1;
        }
    }

    /// Append a fully unconstrained draw specification. Always legal.
    pub fn add_plain_mark(&mut self)
        requires
            old(self).wf(),
            total_lines(old(self).draws@) < usize::MAX,
        ensures
            final(self).wf(),
            final(self).line == old(self).line,
            final(self).scroll == old(self).scroll,
            final(self).draws@.len() == old(self).draws@.len() + 1,
            forall|i: int|
                0 <= i < old(self).draws@.len() ==> final(self).draws@[i] == old(self).draws@[i],
            final(self).draws@.last().power is None,
            final(self).draws@.last().category is None,
            final(self).draws@.last().tags@.len() == 0,
            total_lines(final(self).draws@) == total_lines(old(self).draws@) + 1,
    {
        let d = Draw::unconstrained();
        proof {
            assert(old(self).draws@.push(d) =~= old(self).draws@ + seq![d]);
            lemma_total_lines_concat(old(self).draws@, seq![d]);
            lemma_total_lines_singleton(d);
        }
        self.draws.push(d);
    }

    /// The draw index and in-draw offset the cursor line addresses.
    pub fn get_selection(&self) -> (r: (usize, usize))
        requires
            self.wf(),
            self.draws@.len() > 0,
        ensures
            (r.0 as int, r.1 as int) == locate(self.draws@, self.line as nat),
            r.0 < self.draws@.len(),
            (r.1 as nat) < draw_lines(self.draws@[r.0 as int]),
            start_line(self.draws@, r.0 as int) + r.1 == self.line,
    {
        let ghost s = self.draws@;
        proof {
            lemma_total_lines_split(s, 0);
            assert(s.take(0) =~= Seq::<Draw>::empty());
        }
        let mut i: usize = 0;
        let mut start: usize = 0;
        while i < self.draws.len()
            invariant
                i <= s.len(),
                s == self.draws@,
                self.wf(),
                total_lines(s) > 0,
                start as nat == start_line(s, i as int),
                start <= self.line,
            decreases s.len() - i,
        {
            proof {
                lemma_total_lines_split(s, i as int);
            }
            let dl = draw_lines_exec(&self.draws[i]);
            if self.line - start < dl {
                let off = self.line - start;
                proof {
                    lemma_locate_unique(s, i as int, off as int);
                }
                return (i, off);
            }
            proof {
                lemma_start_line_step(s, i as int);
            }
            start = start + dl;
            i = i + 1;
        }
        proof {
            assert(s.take(s.len() as int) =~= s);
            assert(start_line(s, s.len() as int) == total_lines(s));
            assert(false);
        }
        (0, 0)
    }

    /// The index of the draw specification owning the cursor line.
    pub fn get_selected_draw(&self) -> (r: usize)
        requires
            self.wf(),
            self.draws@.len() > 0,
        ensures
            r as int == locate(self.draws@, self.line as nat).0,
            r < self.draws@.len(),
    {
        let (d, _) = self.get_selection();
        d
    }

    /// The kind of element the cursor line addresses.
    pub fn get_element_kind(&self) -> (r: ElementKind)
        requires
            self.wf(),
            self.draws@.len() > 0,
        ensures
            r == element_kind_at(
                self.draws@[locate(self.draws@, self.line as nat).0],
                locate(self.draws@, self.line as nat).1,
            ),
    {
        let (d, o) = self.get_selection();
        let dr = &self.draws[d];
        let p: usize = if dr.power.is_some() {
            1
        } else {
            0
        };
        let c: usize = if dr.category.is_some() {
            1
        } else {
            0
        };
        if o == 0 {
            ElementKind::Mark
        } else if o < 1 + p {
            ElementKind::Power
        } else if o < 1 + p + c {
            ElementKind::Category
        } else {
            ElementKind::Tag(o - 1 - p - c)
        }
    }

    /// Set (or replace) the power constraint of the draw owning the cursor
    /// line to the fixed starting value; it becomes rotatable thereafter.
    pub fn add_or_modify_power(&mut self)
        requires
            old(self).wf(),
            old(self).draws@.len() > 0,
            total_lines(old(self).draws@) < usize::MAX,
        ensures
            final(self).wf(),
            final(self).line == old(self).line,
            final(self).scroll == old(self).scroll,
            final(self).draws@ == old(self).draws@.update(
                locate(old(self).draws@, old(self).line as nat).0,
                (Draw {
                    power: Some(Power::Supreme),
                    ..old(self).draws@[locate(old(self).draws@, old(self).line as nat).0]
                }),
            ),
    {
        let ghost s = self.draws@;
        let (d, _) = self.get_selection();
        let mut dr = self.draws.remove(d);
        dr.power = Some(Power::Supreme);
        self.draws.insert(d, dr);
        proof {
            assert(self.draws@ =~= s.update(
                d as int,
                (Draw { power: Some(Power::Supreme), ..s[d as int] }),
            ));
            lemma_total_lines_update(s, d as int, self.draws@[d as int]);
            lemma_locate_round_trip(s, old(self).line as nat);
        }
    }

    /// Set (or replace) the category constraint of the draw owning the
    /// cursor line to the first category of the library's category set.
    pub fn add_or_modify_category(&mut self, lib: &Library)
        requires
            old(self).wf(),
            old(self).draws@.len() > 0,
            lib.categories@.len() > 0,
            total_lines(old(self).draws@) < usize::MAX,
        ensures
            final(self).wf(),
            final(self).line == old(self).line,
            final(self).scroll == old(self).scroll,
            final(self).draws@.len() == old(self).draws@.len(),
            ({
                let d = locate(old(self).draws@, old(self).line as nat).0;
                &&& forall|i: int|
                    0 <= i < old(self).draws@.len() && i != d ==> final(self).draws@[i] == old(
                        self,
                    ).draws@[i]
                &&& final(self).draws@[d].power == old(self).draws@[d].power
                &&& final(self).draws@[d].tags == old(self).draws@[d].tags
                &&& final(self).draws@[d].category matches Some(c) && c@ == lib.categories@[0]@
            }),
    {
        let ghost s = self.draws@;
        let (d, _) = self.get_selection();
        let mut dr = self.draws.remove(d);
        dr.category = Some(lib.categories[0].clone());
        self.draws.insert(d, dr);
        proof {
            assert(self.draws@ =~= s.remove(d as int).insert(d as int, dr));
            assert(self.draws@ =~= s.update(d as int, dr));
            lemma_total_lines_update(s, d as int, dr);
            lemma_locate_round_trip(s, old(self).line as nat);
        }
    }

    /// Append, as a starting value, the first tag of the library's tag set
    /// that the draw owning the cursor line does not already use; when every
    /// library tag is already used this is a no-op.
    pub fn add_tag(&mut self, lib: &Library)
        requires
            old(self).wf(),
            old(self).draws@.len() > 0,
            total_lines(old(self).draws@) < usize::MAX,
        ensures
            final(self).wf(),
            final(self).line == old(self).line,
            final(self).scroll == old(self).scroll,
            final(self).draws@.len() == old(self).draws@.len(),
            ({
                let d = locate(old(self).draws@, old(self).line as nat).0;
                let dr = old(self).draws@[d];
                &&& forall|i: int|
                    0 <= i < old(self).draws@.len() && i != d ==> final(self).draws@[i] == old(
                        self,
                    ).draws@[i]
                &&& has_unused_tag(lib.tags@, dr.tags@) ==> {
                    &&& final(self).draws@[d].power == dr.power
                    &&& final(self).draws@[d].category == dr.category
                    &&& final(self).draws@[d].tags@.len() == dr.tags@.len() + 1
                    &&& forall|i: int|
                        0 <= i < dr.tags@.len() ==> final(self).draws@[d].tags@[i] == dr.tags@[i]
                    &&& final(self).draws@[d].tags@.last()@ == lib.tags@[first_unused_tag(
                        lib.tags@,
                        dr.tags@,
                    )]@
                }
                &&& !has_unused_tag(lib.tags@, dr.tags@) ==> final(self).draws@[d] == dr
            }),
    {
        let ghost s = self.draws@;
        let (d, _) = self.get_selection();
        let mut dr = self.draws.remove(d);
        let ghost dr0 = dr;
        let mut u: usize = 0;
        let mut found = false;
        while u < lib.tags.len() && !found
            invariant
                u <= lib.tags@.len(),
                dr == dr0,
                found ==> u > 0,
                !found ==> forall|j: int| 0 <= j < u ==> seq_has_str(dr0.tags@, lib.tags@[j]@),
                found ==> {
                    &&& !seq_has_str(dr0.tags@, lib.tags@[u - 1]@)
                    &&& forall|j: int| 0 <= j < u - 1 ==> seq_has_str(dr0.tags@, lib.tags@[j]@)
                },
            decreases lib.tags@.len() - u,
        {
            if !crate::mark::contains_str(&dr.tags, &lib.tags[u]) {
                found = true;
            }
            u += 1;
        }
        if found {
            let t = lib.tags[u - 1].clone();
            proof {
                lemma_first_unused_tag_at(lib.tags@, dr0.tags@, u - 1);
                assert(!seq_has_str(dr0.tags@, t@));
            }
            dr.tags.push(t);
            proof {
                assert forall|i: int, j: int|
                    0 <= i < j < dr.tags@.len() implies dr.tags@[i]@ != dr.tags@[j]@ by {
                    if j < dr.tags@.len() - 1 {
                        assert(strs_distinct(dr0.tags@));
                    } else {
                        assert(dr.tags@[i] == dr0.tags@[i]);
                    }
                }
            }
        }
        self.draws.insert(d, dr);
        proof {
            assert(self.draws@ =~= s.update(d as int, dr));
            lemma_total_lines_update(s, d as int, dr);
            lemma_locate_round_trip(s, old(self).line as nat);
        }
    }

    /// Rotate the element the cursor addresses one step in `dir`: the mark
    /// header is not rotatable (a no-op); a power cycles through the seven
    /// tiers; a category cycles through the library's category set; a tag
    /// cycles through the library's tags excluding every tag the same draw
    /// already uses elsewhere. A value missing from its candidate set is
    /// left unchanged: rotation is then a defensive no-op.
    pub fn rotate_current_element(&mut self, lib: &Library, dir: Dir)
        requires
            old(self).wf(),
            old(self).draws@.len() > 0,
        ensures
            final(self).wf(),
            final(self).line == old(self).line,
            final(self).scroll == old(self).scroll,
            final(self).draws@.len() == old(self).draws@.len(),
            ({
                let d = locate(old(self).draws@, old(self).line as nat).0;
                let o = locate(old(self).draws@, old(self).line as nat).1;
                let dr = old(self).draws@[d];
                &&& forall|i: int|
                    0 <= i < old(self).draws@.len() && i != d ==> final(self).draws@[i] == old(
                        self,
                    ).draws@[i]
                &&& match element_kind_at(dr, o) {
                    ElementKind::Mark => final(self).draws@[d] == dr,
                    ElementKind::Power => final(self).draws@[d] == (Draw {
                        power: Some(
                            match dir {
                                Dir::Left => power_succ(dr.power->Some_0),
                                Dir::Right => power_pred(dr.power->Some_0),
                            },
                        ),
                        ..dr
                    }),
                    ElementKind::Category => {
                        &&& final(self).draws@[d].power == dr.power
                        &&& final(self).draws@[d].tags == dr.tags
                        &&& final(self).draws@[d].category matches Some(c) && c@ == rotate_step(
                            str_views(lib.categories@),
                            dr.category->Some_0@,
                            dir,
                        )
                    },
                    ElementKind::Tag(n) => {
                        &&& final(self).draws@[d].power == dr.power
                        &&& final(self).draws@[d].category == dr.category
                        &&& final(self).draws@[d].tags@.len() == dr.tags@.len()
                        &&& forall|i: int|
                            0 <= i < dr.tags@.len() && i != n ==> final(self).draws@[d].tags@[i]
                                == dr.tags@[i]
                        &&& final(self).draws@[d].tags@[n as int]@ == rotate_step(
                            str_views(tag_candidates(lib.tags@, dr.tags@, n as int)),
                            dr.tags@[n as int]@,
                            dir,
                        )
                    },
                }
            }),
    {
        let ghost s = self.draws@;
        let (d, o) = self.get_selection();
        let kind = self.get_element_kind();
        let mut dr = self.draws.remove(d);
        let ghost dr0 = dr;
        match kind {
            ElementKind::Mark => {},
            ElementKind::Power => {
                let forward = match dir {
                    Dir::Left => true,
                    Dir::Right => false,
                };
                let p = match dr.power {
                    Some(p) => p,
                    None => Power::Supreme,
                };
                proof {
                    assert(dr.power is Some);
                }
                dr.power = Some(crate::power::rotate_power(p, forward));
            },
            ElementKind::Category => {
                proof {
                    assert(dr.category is Some);
                }
                let newc = match &dr.category {
                    Some(c) => rotate_string(&lib.categories, c, dir),
                    None => String::new(),
                };
                dr.category = Some(newc);
            },
            ElementKind::Tag(n) => {
                proof {
                    assert((n as int) < dr.tags@.len());
                }
                let cands = build_tag_candidates(&lib.tags, &dr.tags, n);
                let newt = rotate_string(&cands, &dr.tags[n], dir);
                let ghost sv = str_views(cands@);
                let ghost tcs = tag_candidates(lib.tags@, dr0.tags@, n as int);
                proof {
                    let cur = dr0.tags@[n as int]@;
                    assert(sv == str_views(tcs));
                    assert(draw_tags_distinct(dr0));
                    if sv.contains(cur) {
                        crate::rotate::lemma_rotate_step_in(sv, cur, dir);
                        let i = choose|i: int| 0 <= i < sv.len() && sv[i] == newt@;
                        assert(str_views(tcs)[i] == tcs[i]@);
                        lemma_tag_candidates_pred(lib.tags@, dr0.tags@, n as int, i);
                        assert(!seq_has_str(dr0.tags@.remove(n as int), newt@));
                    } else {
                        assert(newt@ == cur);
                        dr0.tags@.remove_ensures(n as int);
                        assert forall|j: int|
                            0 <= j < dr0.tags@.remove(n as int).len() implies dr0.tags@.remove(
                            n as int,
                        )[j]@ != newt@ by {
                            if j < n {
                                assert(dr0.tags@.remove(n as int)[j] == dr0.tags@[j]);
                            } else {
                                assert(dr0.tags@.remove(n as int)[j] == dr0.tags@[j + 1]);
                            }
                        }
                        assert(!seq_has_str(dr0.tags@.remove(n as int), newt@));
                    }
                }
                dr.tags[n] = newt;
                proof {
                    dr0.tags@.remove_ensures(n as int);
                    assert forall|i: int, j: int|
                        0 <= i < j < dr.tags@.len() implies dr.tags@[i]@ != dr.tags@[j]@ by {
                        if i != n && j != n {
                            assert(dr0.tags@[i]@ != dr0.tags@[j]@);
                        } else if i == n {
                            assert(dr0.tags@.remove(n as int)[j - 1] == dr0.tags@[j]);
                        } else {
                            assert(dr0.tags@.remove(n as int)[i] == dr0.tags@[i]);
                        }
                    }
                }
            },
        }
        self.draws.insert(d, dr);
        proof {
            assert(self.draws@ =~= s.update(d as int, dr));
            lemma_total_lines_update(s, d as int, dr);
            lemma_locate_round_trip(s, old(self).line as nat);
        }
    }

    /// Delete the element the cursor addresses: the mark header removes the
    /// whole draw specification; any other element clears only its own
    /// field. Afterwards the cursor moves one line up, saturating at zero.
    pub fn delete_current_element(&mut self)
        requires
            old(self).wf(),
            old(self).draws@.len() > 0,
        ensures
            final(self).wf(),
            final(self).scroll == old(self).scroll,
            final(self).line == (if old(self).line == 0 {
                0usize
            } else {
                (old(self).line - 1) as usize
            }),
            ({
                let d = locate(old(self).draws@, old(self).line as nat).0;
                let o = locate(old(self).draws@, old(self).line as nat).1;
                let dr = old(self).draws@[d];
                match element_kind_at(dr, o) {
                    ElementKind::Mark => final(self).draws@ == old(self).draws@.remove(d),
                    ElementKind::Power => final(self).draws@ == old(self).draws@.update(
                        d,
                        (Draw { power: None, ..dr }),
                    ),
                    ElementKind::Category => final(self).draws@ == old(self).draws@.update(
                        d,
                        (Draw { category: None, ..dr }),
                    ),
                    ElementKind::Tag(n) => {
                        &&& final(self).draws@.len() == old(self).draws@.len()
                        &&& forall|i: int|
                            0 <= i < old(self).draws@.len() && i != d ==> final(self).draws@[i]
                                == old(self).draws@[i]
                        &&& final(self).draws@[d].power == dr.power
                        &&& final(self).draws@[d].category == dr.category
                        &&& final(self).draws@[d].tags@ == dr.tags@.remove(n as int)
                    },
                }
            }),
    {
        let ghost s = self.draws@;
        let (d, o) = self.get_selection();
        let kind = self.get_element_kind();
        proof {
            lemma_locate_round_trip(s, old(self).line as nat);
            lemma_total_lines_split(s, d as int);
        }
        match kind {
            ElementKind::Mark => {
                self.draws.remove(d);
                proof {
                    lemma_remove_draw_shifts_lines(s, d as int);
                }
            },
            ElementKind::Power => {
                let mut dr = self.draws.remove(d);
                dr.power = None;
                self.draws.insert(d, dr);
                proof {
                    assert(self.draws@ =~= s.update(d as int, dr));
                    lemma_total_lines_update(s, d as int, dr);
                }
            },
            ElementKind::Category => {
                let mut dr = self.draws.remove(d);
                dr.category = None;
                self.draws.insert(d, dr);
                proof {
                    assert(self.draws@ =~= s.update(d as int, dr));
                    lemma_total_lines_update(s, d as int, dr);
                }
            },
            ElementKind::Tag(n) => {
                let mut dr = self.draws.remove(d);
                let ghost dr0 = dr;
                proof {
                    assert((n as int) < dr.tags@.len());
                }
                dr.tags.remove(n);
                proof {
                    dr0.tags@.remove_ensures(n as int);
                    assert forall|i: int, j: int|
                        0 <= i < j < dr.tags@.len() implies dr.tags@[i]@ != dr.tags@[j]@ by {
                        assert(draw_tags_distinct(dr0));
                    }
                }
                self.draws.insert(d, dr);
                proof {
                    assert(self.draws@ =~= s.update(d as int, dr));
                    lemma_total_lines_update(s, d as int, dr);
                }
            },
        }
        if self.line > 0 {
            self.line = self.line - 1;
        }
    }

}

/// The candidate list a tag rotation cycles through: the library's tags in
/// order, excluding every tag the draw already uses elsewhere — every tag
/// but the one at `n`, the one being rotated.
pub open spec fn tag_candidates(lib_tags: Seq<String>, used: Seq<String>, n: int) -> Seq<String>
    decreases lib_tags.len(),
{
    if lib_tags.len() == 0 {
        Seq::empty()
    } else {
        let rest = tag_candidates(lib_tags.drop_last(), used, n);
        if !seq_has_str(used.remove(n), lib_tags.last()@) {
            rest.push(lib_tags.last())
        } else {
            rest
        }
    }
}

/// Every tag rotation candidate comes from the library's tag set and is
/// used nowhere else in the draw.
pub proof fn lemma_tag_candidates_pred(lib_tags: Seq<String>, used: Seq<String>, n: int, i: int)
    requires
        0 <= i < tag_candidates(lib_tags, used, n).len(),
    ensures
        !seq_has_str(used.remove(n), tag_candidates(lib_tags, used, n)[i]@),
        seq_has_str(lib_tags, tag_candidates(lib_tags, used, n)[i]@),
    decreases lib_tags.len(),
{
    let tcs = tag_candidates(lib_tags, used, n);
    let rest = tag_candidates(lib_tags.drop_last(), used, n);
    if i < rest.len() {
        lemma_tag_candidates_pred(lib_tags.drop_last(), used, n, i);
        let w = choose|w: int| 0 <= w < lib_tags.drop_last().len() && lib_tags.drop_last()[w]@
            == rest[i]@;
        assert(lib_tags[w]@ == tcs[i]@);
    } else {
        assert(tcs[i] == lib_tags.last());
        assert(lib_tags[lib_tags.len() - 1]@ == tcs[i]@);
    }
}

/// Rotating the tag at position `n` does not change the candidate list it
/// cycles through: the candidates depend only on the draw's other tags. So
/// `k` rotations of one tag all step through one list, and rotating it
/// forward `k` times and then backward `k` times restores it, by the
/// inverse law of that list.
pub proof fn lemma_tag_candidates_stable(
    lib_tags: Seq<String>,
    used: Seq<String>,
    n: int,
    x: String,
)
    requires
        0 <= n < used.len(),
    ensures
        tag_candidates(lib_tags, used.update(n, x), n) == tag_candidates(lib_tags, used, n),
    decreases lib_tags.len(),
{
    assert(used.update(n, x).remove(n) =~= used.remove(n));
    if lib_tags.len() > 0 {
        lemma_tag_candidates_stable(lib_tags.drop_last(), used, n, x);
    }
}

/// For a library whose tags are distinct, the tag rotation candidates are
/// distinct too — so rotating a tag forward and backward restores it.
pub proof fn lemma_tag_candidates_distinct(lib_tags: Seq<String>, used: Seq<String>, n: int)
    requires
        strs_distinct(lib_tags),
    ensures
        strs_distinct(tag_candidates(lib_tags, used, n)),
    decreases lib_tags.len(),
{
    if lib_tags.len() > 0 {
        let tcs = tag_candidates(lib_tags, used, n);
        let rest = tag_candidates(lib_tags.drop_last(), used, n);
        assert forall|i: int, j: int|
            0 <= i < j < lib_tags.drop_last().len() implies lib_tags.drop_last()[i]@
            != lib_tags.drop_last()[j]@ by {
            assert(lib_tags.drop_last()[i] == lib_tags[i]);
            assert(lib_tags.drop_last()[j] == lib_tags[j]);
        }
        lemma_tag_candidates_distinct(lib_tags.drop_last(), used, n);
        if !seq_has_str(used.remove(n), lib_tags.last()@) {
            assert forall|i: int, j: int| 0 <= i < j < tcs.len() implies tcs[i]@ != tcs[j]@ by {
                if j < tcs.len() - 1 {
                    assert(tcs[i] == rest[i] && tcs[j] == rest[j]);
                } else {
                    assert(tcs[i] == rest[i]);
                    lemma_tag_candidates_pred(lib_tags.drop_last(), used, n, i);
                    let w = choose|w: int|
                        0 <= w < lib_tags.drop_last().len() && lib_tags.drop_last()[w]@
                            == rest[i]@;
                    assert(lib_tags[w]@ == rest[i]@);
                    assert(lib_tags[w]@ != lib_tags[lib_tags.len() - 1]@);
                }
            }
        }
    }
}

/// Whether the draw's tag list, with position `n` left out, holds a tag
/// reading `t`.
fn used_elsewhere(used: &Vec<String>, n: usize, t: &String) -> (r: bool)
    requires
        n < used@.len(),
    ensures
        r == seq_has_str(used@.remove(n as int), t@),
{
    proof {
        used@.remove_ensures(n as int);
    }
    let mut j: usize = 0;
    while j < used.len()
        invariant
            j <= used@.len(),
            n < used@.len(),
            forall|i: int| 0 <= i < j && i != n ==> used@[i]@ != t@,
        decreases used@.len() - j,
    {
        if j != n && used[j] == *t {
            proof {
                used@.remove_ensures(n as int);
                if j < n {
                    assert(used@.remove(n as int)[j as int] == used@[j as int]);
                } else {
                    assert(used@.remove(n as int)[j - 1] == used@[j as int]);
                }
            }
            return true;
        }
        j += 1;
    }
    proof {
        used@.remove_ensures(n as int);
        assert forall|i: int| 0 <= i < used@.remove(n as int).len() implies used@.remove(
            n as int,
        )[i]@ != t@ by {
            if i < n {
                assert(used@.remove(n as int)[i] == used@[i]);
            } else {
                assert(used@.remove(n as int)[i] == used@[i + 1]);
            }
        }
    }
    false
}

/// The tag rotation candidates, as fresh strings in library order.
fn build_tag_candidates(lib_tags: &Vec<String>, used: &Vec<String>, n: usize) -> (r: Vec<String>)
    requires
        n < used@.len(),
    ensures
        str_views(r@) == str_views(tag_candidates(lib_tags@, used@, n as int)),
{
    let mut out: Vec<String> = Vec::new();
    proof {
        assert(lib_tags@.take(0) =~= Seq::<String>::empty());
        assert(str_views(out@) =~= str_views(tag_candidates(lib_tags@.take(0), used@, n as int)));
    }
    let mut k: usize = 0;
    while k < lib_tags.len()
        invariant
            k <= lib_tags@.len(),
            n < used@.len(),
            str_views(out@) == str_views(tag_candidates(lib_tags@.take(k as int), used@, n as int)),
        decreases lib_tags@.len() - k,
    {
        let ghost pre = lib_tags@.take(k as int);
        let ghost post = lib_tags@.take(k + 1);
        proof {
            assert(post.drop_last() =~= pre);
            assert(post.last() == lib_tags@[k as int]);
        }
        if !used_elsewhere(used, n, &lib_tags[k]) {
            let ghost prev = out@;
            out.push(lib_tags[k].clone());
            proof {
                let tcpre = tag_candidates(pre, used@, n as int);
                let tcpost = tag_candidates(post, used@, n as int);
                assert(tcpost == tcpre.push(lib_tags@[k as int]));
                assert(str_views(prev).len() == prev.len());
                assert(str_views(tcpre).len() == tcpre.len());
                assert(str_views(prev) == str_views(tcpre));
                assert forall|i: int| 0 <= i < out@.len() implies str_views(out@)[i] == str_views(
                    tcpost,
                )[i] by {
                    if i < prev.len() {
                        assert(str_views(prev)[i] == str_views(tcpre)[i]);
                        assert(out@[i] == prev[i]);
                        assert(tcpost[i] == tcpre[i]);
                    } else {
                        assert(out@[i]@ == lib_tags@[k as int]@);
                        assert(tcpost[i] == lib_tags@[k as int]);
                    }
                }
                assert(str_views(out@) =~= str_views(tcpost));
            }
        } else {
            proof {
                assert(tag_candidates(post, used@, n as int) == tag_candidates(
                    pre,
                    used@,
                    n as int,
                ));
                assert(str_views(out@) =~= str_views(tag_candidates(post, used@, n as int)));
            }
        }
        k += 1;
    }
    proof {
        assert(lib_tags@.take(lib_tags@.len() as int) =~= lib_tags@);
    }
    out
}

/// The number of cursor lines one draw occupies.
pub fn draw_lines_exec(d: &Draw) -> (r: usize)
    requires
        draw_lines(*d) <= usize::MAX,
    ensures
        r as nat == draw_lines(*d),
{
    let p: usize = if d.power.is_some() {
        1
    } else {
        0
    };
    let c: usize = if d.category.is_some() {
        1
    } else {
        0
    };
    1 + p + c + d.tags.len()
}

} // verus!
