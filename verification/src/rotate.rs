//! Cyclic value rotation: stepping a value forward or backward through a
//! candidate list, and the laws that make rotation reversible.

use vstd::prelude::*;
use crate::mark::str_views;

verus! {

/// A rotation direction. `Left` steps to the cyclic successor in the
/// candidate list, `Right` to the cyclic predecessor.
#[derive(Debug, Clone, Copy, PartialEq, Eq, Structural)]
pub enum Dir {
    Left,
    Right,
}

/// The other direction.
pub open spec fn opposite(dir: Dir) -> Dir {
    match dir {
        Dir::Left => Dir::Right,
        Dir::Right => Dir::Left,
    }
}

/// The position of the first occurrence of `x` in `s`.
pub open spec fn first_index<A>(s: Seq<A>, x: A) -> int
    decreases s.len(),
{
    if s.len() == 0 {
        0
    } else if s[0] == x {
        0
    } else {
        1 + first_index(s.skip(1), x)
    }
}

pub proof fn lemma_first_index<A>(s: Seq<A>, x: A)
    requires
        s.contains(x),
    ensures
        0 <= first_index(s, x) < s.len(),
        s[first_index(s, x)] == x,
        forall|j: int| 0 <= j < first_index(s, x) ==> s[j] != x,
    decreases s.len(),
{
    if s[0] == x {
    } else {
        let w = choose|w: int| 0 <= w < s.len() && s[w] == x;
        assert(s.skip(1)[w - 1] == x);
        lemma_first_index(s.skip(1), x);
        assert forall|j: int| 0 <= j < first_index(s, x) implies s[j] != x by {
            if j > 0 {
                assert(s.skip(1)[j - 1] == s[j]);
            }
        }
        assert(s[first_index(s, x)] == s.skip(1)[first_index(s.skip(1), x)]);
    }
}

/// A first occurrence is exactly a position whose earlier positions all differ.
pub proof fn lemma_first_index_at<A>(s: Seq<A>, x: A, i: int)
    requires
        0 <= i < s.len(),
        s[i] == x,
        forall|j: int| 0 <= j < i ==> s[j] != x,
    ensures
        s.contains(x),
        first_index(s, x) == i,
{
    lemma_first_index(s, x);
    let f = first_index(s, x);
    if f < i {
        assert(s[f] != x);
    }
    if f > i {
        assert(s[i] != x);
    }
}

/// In a duplicate-free list every position is the first occurrence of its value.
pub proof fn lemma_first_index_no_dup<A>(s: Seq<A>, i: int)
    requires
        s.no_duplicates(),
        0 <= i < s.len(),
    ensures
        s.contains(s[i]),
        first_index(s, s[i]) == i,
{
    lemma_first_index_at(s, s[i], i);
}

/// The value one rotation step from `x` within the candidate list `s`:
/// `Left` the cyclic successor of `x`'s first occurrence, `Right` the cyclic
/// predecessor; `x` itself when it does not occur in `s`.
pub open spec fn rotate_step<A>(s: Seq<A>, x: A, dir: Dir) -> A {
    if !s.contains(x) {
        x
    } else {
        let i = first_index(s, x);
        match dir {
            Dir::Left => if i + 1 < s.len() {
                s[i + 1]
            } else {
                s[0]
            },
            Dir::Right => if i == 0 {
                s[s.len() - 1]
            } else {
                s[i - 1]
            },
        }
    }
}

/// Rotation never leaves the candidate list.
pub proof fn lemma_rotate_step_in<A>(s: Seq<A>, x: A, dir: Dir)
    requires
        s.contains(x),
    ensures
        s.contains(rotate_step(s, x, dir)),
{
    lemma_first_index(s, x);
}

/// One step one way and one step back restore the value, for a
/// duplicate-free candidate list.
pub proof fn lemma_rotate_step_inverse<A>(s: Seq<A>, x: A, dir: Dir)
    requires
        s.no_duplicates(),
        s.contains(x),
    ensures
        rotate_step(s, rotate_step(s, x, dir), opposite(dir)) == x,
{
    lemma_first_index(s, x);
    let i = first_index(s, x);
    let y = rotate_step(s, x, dir);
    match dir {
        Dir::Left => {
            if i + 1 < s.len() {
                lemma_first_index_no_dup(s, i + 1);
            } else {
                lemma_first_index_no_dup(s, 0);
            }
        },
        Dir::Right => {
            if i == 0 {
                lemma_first_index_no_dup(s, s.len() - 1);
            } else {
                lemma_first_index_no_dup(s, i - 1);
            }
        },
    }
}

/// The value `k` rotation steps from `x`, all in one direction.
pub open spec fn rotate_many<A>(s: Seq<A>, x: A, dir: Dir, k: nat) -> A
    decreases k,
{
    if k == 0 {
        x
    } else {
        rotate_many(s, rotate_step(s, x, dir), dir, (k - 1) as nat)
    }
}

/// Repeated rotation never leaves the candidate list.
pub proof fn lemma_rotate_many_in<A>(s: Seq<A>, x: A, dir: Dir, k: nat)
    requires
        s.contains(x),
    ensures
        s.contains(rotate_many(s, x, dir, k)),
    decreases k,
{
    if k > 0 {
        lemma_rotate_step_in(s, x, dir);
        lemma_rotate_many_in(s, rotate_step(s, x, dir), dir, (k - 1) as nat);
    }
}

/// Rotating an element forward `k` times and then backward `k` times — or
/// backward first, then forward — restores the original value, whenever the
/// candidate list is duplicate-free.
pub proof fn lemma_rotate_many_inverse<A>(s: Seq<A>, x: A, dir: Dir, k: nat)
    requires
        s.no_duplicates(),
        s.contains(x),
    ensures
        rotate_many(s, rotate_many(s, x, dir, k), opposite(dir), k) == x,
    decreases k,
{
    if k > 0 {
        let u = rotate_many(s, x, dir, (k - 1) as nat);
        lemma_rotate_many_in(s, x, dir, (k - 1) as nat);
        lemma_rotate_many_last_step(s, x, dir, (k - 1) as nat);
        assert(rotate_many(s, x, dir, k) == rotate_step(s, u, dir));
        lemma_rotate_step_inverse(s, u, dir);
        assert(rotate_step(s, rotate_many(s, x, dir, k), opposite(dir)) == u);
        lemma_rotate_many_inverse(s, x, dir, (k - 1) as nat);
    }
}

/// Rotating `k + 1` times equals one further step after rotating `k` times.
pub proof fn lemma_rotate_many_last_step<A>(s: Seq<A>, x: A, dir: Dir, k: nat)
    ensures
        rotate_many(s, x, dir, (k + 1) as nat) == rotate_step(s, rotate_many(s, x, dir, k), dir),
    decreases k,
{
    let y = rotate_step(s, x, dir);
    assert(rotate_many(s, x, dir, (k + 1) as nat) == rotate_many(s, y, dir, k));
    if k == 0 {
        assert(rotate_many(s, y, dir, 0) == y);
        assert(rotate_many(s, x, dir, 0) == x);
    } else {
        lemma_rotate_many_last_step(s, y, dir, (k - 1) as nat);
        assert(rotate_many(s, x, dir, k) == rotate_many(s, y, dir, (k - 1) as nat));
    }
}

/// Whether some string of `v` reads `x`, with the first such position.
fn find_str(v: &Vec<String>, x: &String) -> (r: Option<usize>)
    ensures
        match r {
            Some(i) => {
                &&& i < v@.len()
                &&& v@[i as int]@ == x@
                &&& forall|j: int| 0 <= j < i ==> v@[j]@ != x@
            },
            None => forall|j: int| 0 <= j < v@.len() ==> v@[j]@ != x@,
        },
{
    let mut k: usize = 0;
    while k < v.len()
        invariant
            k <= v@.len(),
            forall|j: int| 0 <= j < k ==> v@[j]@ != x@,
        decreases v@.len() - k,
    {
        if v[k] == *x {
            return Some(k);
        }
        k += 1;
    }
    None
}

/// The rotation step over a list of strings, by content: the cyclic
/// neighbour of `cur`'s first occurrence in `options`, or `cur` itself when
/// it does not occur there.
pub fn rotate_string(options: &Vec<String>, cur: &String, dir: Dir) -> (r: String)
    ensures
        r@ == rotate_step(str_views(options@), cur@, dir),
{
    let ghost sv = str_views(options@);
    match find_str(options, cur) {
        Some(i) => {
            proof {
                assert(sv[i as int] == cur@);
                assert forall|j: int| 0 <= j < i implies sv[j] != cur@ by {
                    assert(sv[j] == options@[j]@);
                }
                lemma_first_index_at(sv, cur@, i as int);
            }
            let n = options.len();
            let j: usize = match dir {
                Dir::Left => if i + 1 < n {
                    i + 1
                } else {
                    0
                },
                Dir::Right => if i == 0 {
                    n - 1
                } else {
                    i - 1
                },
            };
            let r = options[j].clone();
            proof {
                assert(sv[j as int] == options@[j as int]@);
            }
            r
        },
        None => {
            proof {
                assert forall|j: int| 0 <= j < sv.len() implies sv[j] != cur@ by {
                    assert(sv[j] == options@[j]@);
                }
                assert(!sv.contains(cur@));
            }
            cur.clone()
        },
    }
}

} // verus!
