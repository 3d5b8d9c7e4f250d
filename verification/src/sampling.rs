//! The sampling engine: resolving an ordered list of draw specifications to
//! one mark each, with uniform choice inside the qualifying pool, cross-draw
//! deduplication by name, and a fixed placeholder when the pool is empty.

use vstd::prelude::*;
use crate::draw::Draw;
use crate::library::Library;
use crate::mark::{is_sentinel, mark_has_tag, mark_like, seq_has_str, sentinel_mark, Mark};
use crate::power::{power_matches, power_matches_exec};
use crate::rng::pick_index;

verus! {

/// Whether the mark `m` satisfies the draw's filters: power by the matching
/// rule, category by exact content, and every required tag present.
pub open spec fn satisfies(m: Mark, d: Draw) -> bool {
    &&& (d.power matches Some(p) ==> power_matches(p, m.power))
    &&& (d.category matches Some(c) ==> m.category@ == c@)
    &&& (forall|i: int| 0 <= i < d.tags@.len() ==> mark_has_tag(m, d.tags@[i]@))
}

/// The names of an ordered list of marks.
pub open spec fn names_of(s: Seq<Mark>) -> Seq<Seq<char>> {
    s.map_values(|m: Mark| m.name@)
}

/// Whether library entry `k` belongs to the candidate pool of draw `d`, given
/// the names already chosen for earlier draws of the same resolution.
pub open spec fn entry_matches(lib: Library, k: int, d: Draw, prior: Seq<Seq<char>>) -> bool {
    &&& 0 <= k < lib.marks@.len()
    &&& lib.available@[k]
    &&& satisfies(lib.marks@[k], d)
    &&& !prior.contains(lib.marks@[k].name@)
}

/// Whether the candidate pool of draw `d` is non-empty.
pub open spec fn has_candidate(lib: Library, d: Draw, prior: Seq<Seq<char>>) -> bool {
    exists|k: int| entry_matches(lib, k, d, prior)
}

/// What one resolved draw must be: a pool member when the pool is non-empty,
/// the fixed placeholder otherwise.
pub open spec fn resolved_ok(lib: Library, d: Draw, prior: Seq<Seq<char>>, m: Mark) -> bool {
    if has_candidate(lib, d, prior) {
        exists|k: int| entry_matches(lib, k, d, prior) && mark_like(m, lib.marks@[k])
    } else {
        is_sentinel(m)
    }
}

/// Whether every string of `subs` occurs in `sup`, by content.
fn has_all_strings(sup: &Vec<String>, subs: &Vec<String>) -> (r: bool)
    ensures
        r == (forall|i: int| 0 <= i < subs@.len() ==> seq_has_str(sup@, subs@[i]@)),
{
    let mut k: usize = 0;
    while k < subs.len()
        invariant
            k <= subs@.len(),
            forall|i: int| 0 <= i < k ==> seq_has_str(sup@, subs@[i]@),
        decreases subs@.len() - k,
    {
        if !crate::mark::contains_str(sup, &subs[k]) {
            return false;
        }
        k += 1;
    }
    true
}

/// Whether some already-chosen mark carries the name `name`.
fn name_among(marks: &Vec<Mark>, name: &String) -> (r: bool)
    ensures
        r == names_of(marks@).contains(name@),
{
    let mut k: usize = 0;
    while k < marks.len()
        invariant
            k <= marks@.len(),
            forall|i: int| 0 <= i < k ==> marks@[i].name@ != name@,
        decreases marks@.len() - k,
    {
        if marks[k].name == *name {
            assert(names_of(marks@)[k as int] == name@);
            return true;
        }
        k += 1;
    }
    assert forall|i: int| 0 <= i < names_of(marks@).len() implies names_of(marks@)[i] != name@ by {
        assert(names_of(marks@)[i] == marks@[i].name@);
    }
    false
}

impl Library {
    /// Resolve each draw of `draws`, in order, to a mark: a uniformly random
    /// member of the draw's candidate pool — the available marks satisfying
    /// the draw's filters whose names no earlier draw of this call chose —
    /// or the fixed placeholder when that pool is empty.
    ///
    /// Availability flags are read, never written; the pool is rebuilt from
    /// scratch for every draw.
    pub fn exec_draw(&self, draws: &Vec<Draw>, rng: &mut rand::rngs::StdRng) -> (r: Vec<Mark>)
        requires
            self.available@.len() == self.marks@.len(),
        ensures
            r@.len() == draws@.len(),
            forall|i: int|
                0 <= i < draws@.len() ==> resolved_ok(
                    *self,
                    draws@[i],
                    names_of(r@.take(i)),
                    r@[i],
                ),
    {
        let mut out: Vec<Mark> = Vec::new();
        let mut di: usize = 0;
        while di < draws.len()
            invariant
                self.available@.len() == self.marks@.len(),
                di <= draws@.len(),
                out@.len() == di,
                forall|i: int|
                    0 <= i < di ==> resolved_ok(*self, draws@[i], names_of(out@.take(i)), out@[i]),
            decreases draws@.len() - di,
        {
            let d = &draws[di];
            let ghost prior = names_of(out@);

            let mut pool: Vec<usize> = Vec::new();
            let mut k: usize = 0;
            while k < self.marks.len()
                invariant
                    self.available@.len() == self.marks@.len(),
                    k <= self.marks@.len(),
                    prior == names_of(out@),
                    forall|j: int|
                        0 <= j < pool@.len() ==> entry_matches(*self, pool@[j] as int, *d, prior),
                    forall|kk: int|
                        0 <= kk < k && entry_matches(*self, kk, *d, prior) ==> exists|j: int|
                            0 <= j < pool@.len() && pool@[j] as int == kk,
                decreases self.marks@.len() - k,
            {
                let mark = &self.marks[k];
                let avail = self.available[k];
                let power_ok = match &d.power {
                    Some(p) => power_matches_exec(*p, mark.power),
                    None => true,
                };
                let cat_ok = match &d.category {
                    Some(c) => mark.category == *c,
                    None => true,
                };
                let tags_ok = has_all_strings(&mark.tags, &d.tags);
                let fresh = !name_among(&out, &mark.name);
                proof {
                    assert((avail && power_ok && cat_ok && tags_ok && fresh) == entry_matches(
                        *self,
                        k as int,
                        *d,
                        prior,
                    ));
                }
                if avail && power_ok && cat_ok && tags_ok && fresh {
                    let ghost oldpool = pool@;
                    pool.push(k);
                    assert(entry_matches(*self, k as int, *d, prior));
                    assert forall|kk: int|
                        0 <= kk < k + 1 && entry_matches(*self, kk, *d, prior) implies exists|
                        j: int,
                    |
                        0 <= j < pool@.len() && pool@[j] as int == kk by {
                        if kk == k {
                            assert(pool@[pool@.len() - 1] as int == kk);
                        } else {
                            assert(exists|j: int| 0 <= j < oldpool.len() && oldpool[j] as int == kk);
                            let j = choose|j: int| 0 <= j < oldpool.len() && oldpool[j] as int == kk;
                            assert(pool@[j] as int == kk);
                        }
                    }
                } else {
                    assert(!entry_matches(*self, k as int, *d, prior));
                }
                k += 1;
            }

            let ghost outprev = out@;
            if pool.len() > 0 {
                let pi = pick_index(rng, pool.len());
                let idx = pool[pi];
                let chosen = self.marks[idx].duplicate();
                proof {
                    assert(entry_matches(*self, idx as int, *d, prior));
                    assert(has_candidate(*self, *d, prior));
                    assert(entry_matches(*self, idx as int, *d, prior) && mark_like(
                        chosen,
                        self.marks@[idx as int],
                    ));
                }
                out.push(chosen);
            } else {
                proof {
                    assert forall|kk: int| !entry_matches(*self, kk, *d, prior) by {
                        if entry_matches(*self, kk, *d, prior) {
                            assert(0 <= kk < self.marks@.len());
                            assert(exists|j: int| 0 <= j < pool@.len() && pool@[j] as int == kk);
                        }
                    }
                    assert(!has_candidate(*self, *d, prior));
                }
                out.push(sentinel_mark());
            }
            proof {
                assert(out@.take(di as int) =~= outprev);
                assert(resolved_ok(*self, draws@[di as int], names_of(out@.take(di as int)), out@[di as int]));
                assert forall|i: int|
                    0 <= i < di + 1 implies resolved_ok(
                    *self,
                    draws@[i],
                    names_of(out@.take(i)),
                    out@[i],
                ) by {
                    if i < di {
                        assert(out@.take(i) =~= outprev.take(i));
                        assert(out@[i] == outprev[i]);
                    }
                }
            }
            di += 1;
        }
        out
    }
}

/// Of a draw constrained to an exact power — any tier but the `BadKarma`
/// ceiling — whose pool was non-empty, the resolved mark has exactly that
/// power.
pub proof fn lemma_power_constraint_exact(
    lib: Library,
    d: Draw,
    prior: Seq<Seq<char>>,
    m: Mark,
    q: crate::power::Power,
)
    requires
        d.power == Some(q),
        q != crate::power::Power::BadKarma,
        has_candidate(lib, d, prior),
        resolved_ok(lib, d, prior, m),
    ensures
        m.power == q,
{
    let k = choose|k: int| entry_matches(lib, k, d, prior) && mark_like(m, lib.marks@[k]);
    assert(power_matches(q, lib.marks@[k].power));
}

/// Of a draw constrained to `BadKarma` whose pool was non-empty, the
/// resolved mark's power is at most `Moderate`: the constraint is a ceiling.
pub proof fn lemma_bad_karma_is_ceiling(lib: Library, d: Draw, prior: Seq<Seq<char>>, m: Mark)
    requires
        d.power == Some(crate::power::Power::BadKarma),
        has_candidate(lib, d, prior),
        resolved_ok(lib, d, prior, m),
    ensures
        m.power == crate::power::Power::BadKarma || m.power == crate::power::Power::Poor
            || m.power == crate::power::Power::Moderate,
{
    let k = choose|k: int| entry_matches(lib, k, d, prior) && mark_like(m, lib.marks@[k]);
    assert(power_matches(crate::power::Power::BadKarma, lib.marks@[k].power));
}

/// When every draw of a resolution found a non-empty pool, the resolved
/// marks carry pairwise distinct names: the growing dedup set excludes every
/// name already chosen.
pub proof fn lemma_resolved_names_distinct(lib: Library, draws: Seq<Draw>, r: Seq<Mark>)
    requires
        r.len() == draws.len(),
        forall|i: int|
            0 <= i < draws.len() ==> resolved_ok(lib, draws[i], names_of(r.take(i)), r[i]),
        forall|i: int| 0 <= i < draws.len() ==> has_candidate(lib, draws[i], names_of(r.take(i))),
    ensures
        forall|i: int, j: int| 0 <= i < j < r.len() ==> r[i].name@ != r[j].name@,
{
    assert forall|i: int, j: int| 0 <= i < j < r.len() implies r[i].name@ != r[j].name@ by {
        let prior = names_of(r.take(j));
        assert(resolved_ok(lib, draws[j], prior, r[j]));
        let k = choose|k: int| entry_matches(lib, k, draws[j], prior) && mark_like(
            r[j],
            lib.marks@[k],
        );
        assert(prior[i] == r.take(j)[i].name@);
        if r[j].name@ == r[i].name@ {
            assert(prior.contains(lib.marks@[k].name@));
        }
    }
}

} // verus!
