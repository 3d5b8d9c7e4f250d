//! The seven-tier power rating of a mark, its cyclic rotation order, and the
//! matching rule a power constraint applies during sampling.

use vstd::prelude::*;

verus! {

/// The quality tier of a mark, from worst to best.
#[derive(Debug, Clone, Copy, PartialEq, Eq, Structural)]
pub enum Power {
    BadKarma,
    Poor,
    Moderate,
    Good,
    Great,
    Supreme,
    Unique,
}

impl Default for Power {
    fn default() -> (r: Self)
        ensures
            r == Power::Moderate,
    {
        Power::Moderate
    }
}

/// The tier after `p` in rotation order, wrapping from the last to the first.
pub open spec fn power_succ(p: Power) -> Power {
    match p {
        Power::BadKarma => Power::Poor,
        Power::Poor => Power::Moderate,
        Power::Moderate => Power::Good,
        Power::Good => Power::Great,
        Power::Great => Power::Supreme,
        Power::Supreme => Power::Unique,
        Power::Unique => Power::BadKarma,
    }
}

/// The tier before `p` in rotation order, wrapping from the first to the last.
pub open spec fn power_pred(p: Power) -> Power {
    match p {
        Power::BadKarma => Power::Unique,
        Power::Poor => Power::BadKarma,
        Power::Moderate => Power::Poor,
        Power::Good => Power::Moderate,
        Power::Great => Power::Good,
        Power::Supreme => Power::Great,
        Power::Unique => Power::Supreme,
    }
}

/// Stepping forward and then backward (or backward and then forward) in the
/// tier rotation order returns to the starting tier.
pub proof fn lemma_power_rotation_inverse(p: Power)
    ensures
        power_pred(power_succ(p)) == p,
        power_succ(power_pred(p)) == p,
{
}

/// The tier `k` rotation steps from `p`, all in one direction.
pub open spec fn power_rotate_many(p: Power, forward: bool, k: nat) -> Power
    decreases k,
{
    if k == 0 {
        p
    } else {
        power_rotate_many(
            if forward {
                power_succ(p)
            } else {
                power_pred(p)
            },
            forward,
            (k - 1) as nat,
        )
    }
}

/// Rotating a power tier forward `k` times and then backward `k` times — or
/// backward first, then forward — restores the original tier.
pub proof fn lemma_power_rotate_many_inverse(p: Power, forward: bool, k: nat)
    ensures
        power_rotate_many(power_rotate_many(p, forward, k), !forward, k) == p,
    decreases k,
{
    if k > 0 {
        let u = power_rotate_many(p, forward, (k - 1) as nat);
        lemma_power_rotate_many_last_step(p, forward, (k - 1) as nat);
        lemma_power_rotation_inverse(u);
        lemma_power_rotate_many_inverse(p, forward, (k - 1) as nat);
    }
}

/// Rotating `k + 1` times equals one further step after rotating `k` times.
pub proof fn lemma_power_rotate_many_last_step(p: Power, forward: bool, k: nat)
    ensures
        power_rotate_many(p, forward, (k + 1) as nat) == (if forward {
            power_succ(power_rotate_many(p, forward, k))
        } else {
            power_pred(power_rotate_many(p, forward, k))
        }),
    decreases k,
{
    let q = if forward {
        power_succ(p)
    } else {
        power_pred(p)
    };
    assert(power_rotate_many(p, forward, (k + 1) as nat) == power_rotate_many(q, forward, k));
    if k == 0 {
        assert(power_rotate_many(q, forward, 0) == q);
        assert(power_rotate_many(p, forward, 0) == p);
    } else {
        lemma_power_rotate_many_last_step(q, forward, (k - 1) as nat);
        assert(power_rotate_many(p, forward, k) == power_rotate_many(q, forward, (k - 1) as nat));
    }
}

/// Whether a mark of power `have` satisfies a draw's power constraint `want`.
///
/// An exact match always passes; a `BadKarma` constraint is a ceiling that
/// additionally admits `Poor` and `Moderate`. No other pair cross-matches.
pub open spec fn power_matches(want: Power, have: Power) -> bool {
    want == have || (want == Power::BadKarma && (have == Power::Poor || have == Power::Moderate))
}

/// Runtime check of [`power_matches`].
pub fn power_matches_exec(want: Power, have: Power) -> (r: bool)
    ensures
        r == power_matches(want, have),
{
    want == have || (want == Power::BadKarma && (have == Power::Poor || have == Power::Moderate))
}

/// The tier one rotation step from `p` in the given direction: forward is
/// the successor in rotation order, backward the predecessor.
pub fn rotate_power(p: Power, forward: bool) -> (r: Power)
    ensures
        forward ==> r == power_succ(p),
        !forward ==> r == power_pred(p),
{
    if forward {
        match p {
            Power::BadKarma => Power::Poor,
            Power::Poor => Power::Moderate,
            Power::Moderate => Power::Good,
            Power::Good => Power::Great,
            Power::Great => Power::Supreme,
            Power::Supreme => Power::Unique,
            Power::Unique => Power::BadKarma,
        }
    } else {
        match p {
            Power::BadKarma => Power::Unique,
            Power::Poor => Power::BadKarma,
            Power::Moderate => Power::Poor,
            Power::Good => Power::Moderate,
            Power::Great => Power::Good,
            Power::Supreme => Power::Great,
            Power::Unique => Power::Supreme,
        }
    }
}

} // verus!
