//! Angle normalization into the half-open interval (-180 deg, 180 deg],
//! in millidegrees, and the shortest-path property of that interval.

use vstd::prelude::*;

verus! {

use crate::FULL_TURN;
use crate::HALF_TURN;
use crate::MAX_TARGET;

/// Magnitude of an integer.
pub open spec fn abs_spec(x: int) -> int {
    if x >= 0 {
        x
    } else {
        -x
    }
}

/// Termination measure for turn-by-turn normalization.
pub open spec fn norm_measure(x: int) -> int {
    abs_spec(x) + if x <= -HALF_TURN {
        1int
    } else {
        0int
    }
}

/// Mathematical normalization of an angle into (-180_000, 180_000],
/// by repeatedly adding or subtracting a full turn.
pub open spec fn norm(x: int) -> int
    decreases norm_measure(x),
{
    if x > HALF_TURN {
        norm(x - FULL_TURN)
    } else if x <= -HALF_TURN {
        norm(x + FULL_TURN)
    } else {
        x
    }
}

/// True of an angle already in the normalized interval.
pub open spec fn is_normalized(x: int) -> bool {
    -HALF_TURN < x <= HALF_TURN
}

/// Normalization lands in the normalized interval.
pub proof fn lemma_norm_range(x: int)
    ensures
        is_normalized(norm(x)),
    decreases norm_measure(x),
{
    if x > HALF_TURN {
        lemma_norm_range(x - FULL_TURN);
    } else if x <= -HALF_TURN {
        lemma_norm_range(x + FULL_TURN);
    }
}

/// Normalization changes an angle by a whole number of turns.
pub proof fn lemma_norm_congruent(x: int)
    ensures
        (norm(x) - x) % (FULL_TURN as int) == 0,
    decreases norm_measure(x),
{
    if x > HALF_TURN {
        lemma_norm_congruent(x - FULL_TURN);
        assert((norm(x) - x) % (FULL_TURN as int) == 0) by {
            vstd::arithmetic::div_mod::lemma_mod_sub_multiples_vanish(
                norm(x - FULL_TURN) - (x - FULL_TURN),
                FULL_TURN as int,
            );
        }
    } else if x <= -HALF_TURN {
        lemma_norm_congruent(x + FULL_TURN);
        assert((norm(x) - x) % (FULL_TURN as int) == 0) by {
            vstd::arithmetic::div_mod::lemma_mod_add_multiples_vanish(
                norm(x + FULL_TURN) - (x + FULL_TURN),
                FULL_TURN as int,
            );
        }
    }
}

/// An angle already normalized is its own normalization.
pub proof fn lemma_norm_identity(x: int)
    requires
        is_normalized(x),
    ensures
        norm(x) == x,
{
}

/// The normalized difference is the shortest representative of its
/// congruence class: no angle that differs from it by whole turns has a
/// smaller magnitude. This is why azimuth motion planned on the
/// normalized difference always takes the shortest rotation.
pub proof fn lemma_norm_shortest(x: int, k: int)
    ensures
        abs_spec(norm(x)) <= abs_spec(norm(x) + k * FULL_TURN),
{
    lemma_norm_range(x);
    if k >= 1 {
        assert(k * FULL_TURN >= FULL_TURN) by (nonlinear_arith)
            requires
                k >= 1,
        ;
    } else if k <= -1 {
        assert(k * FULL_TURN <= -FULL_TURN) by (nonlinear_arith)
            requires
                k <= -1,
        ;
    }
}

/// Subtracting a full turn does not change the normalization.
pub proof fn lemma_norm_peel_high(x: int)
    ensures
        norm(x - FULL_TURN) == norm(x),
{
}

/// Adding a full turn does not change the normalization.
pub proof fn lemma_norm_peel_low(x: int)
    ensures
        norm(x + FULL_TURN) == norm(x),
{
}

/// Normalize an angle whose magnitude is at most one and a half turns,
/// with a single corrective step. Covers differences of two normalized
/// angles and one further velocity step.
pub fn wrap_once(x: i64) -> (r: i64)
    requires
        -3 * (HALF_TURN as int) < x <= 3 * (HALF_TURN as int),
    ensures
        r == norm(x as int),
        is_normalized(r as int),
{
    if x > HALF_TURN {
        proof {
            lemma_norm_identity(x - FULL_TURN);
        }
        x - FULL_TURN
    } else if x <= -HALF_TURN {
        proof {
            lemma_norm_identity(x + FULL_TURN);
        }
        x + FULL_TURN
    } else {
        x
    }
}

/// Normalize any commandable angle into (-180_000, 180_000].
pub fn normalize_angle(x: i64) -> (r: i64)
    requires
        -MAX_TARGET <= x <= MAX_TARGET,
    ensures
        r == norm(x as int),
        is_normalized(r as int),
{
    let mut r = x;
    while r > HALF_TURN
        invariant
            -MAX_TARGET <= r <= MAX_TARGET,
            norm(r as int) == norm(x as int),
        decreases r + MAX_TARGET,
    {
        proof {
            lemma_norm_peel_high(r as int);
        }
        r = r - FULL_TURN;
    }
    while r <= -HALF_TURN
        invariant
            -MAX_TARGET <= r <= HALF_TURN,
            norm(r as int) == norm(x as int),
        decreases MAX_TARGET - r,
    {
        proof {
            lemma_norm_peel_low(r as int);
        }
        r = r + FULL_TURN;
    }
    proof {
        lemma_norm_identity(r as int);
    }
    r
}

} // verus!
