//! Fixed-point arithmetic for the learning rules.
//!
//! A value `x` stands for the real number `x / ONE`, so values carry six
//! decimal places. Action values are kept inside `[-VALUE_LIMIT, VALUE_LIMIT]`
//! and the temporal-difference blend saturates at that range, which keeps
//! every intermediate product inside `i64`.

use vstd::prelude::*;

verus! {

/// One whole unit: fixed-point values carry six decimal places.
pub const ONE: i64 = 1_000_000;

/// Largest magnitude an action value may take (one million whole units).
pub const VALUE_LIMIT: i64 = 1_000_000_000_000;

/// The multiplicative factor applied to the exploration rate after each
/// learning step: nine tenths of `ONE`.
pub const DECAY_FACTOR: i64 = 900_000;

/// True of a scalar that may be stored as an action value.
pub open spec fn in_value_range(x: int) -> bool {
    -VALUE_LIMIT <= x <= VALUE_LIMIT
}

/// True of a rate: a fixed-point number in `[0, 1]`.
pub open spec fn is_rate(x: int) -> bool {
    0 <= x <= ONE
}

/// Division by `ONE`, rounding toward zero as `/` does on machine integers.
pub open spec fn scale_down(x: int) -> int {
    if x >= 0 {
        x / (ONE as int)
    } else {
        -((-x) / (ONE as int))
    }
}

/// Saturation into the representable action-value range.
pub open spec fn clamp_value(x: int) -> int {
    if x < -VALUE_LIMIT {
        -VALUE_LIMIT as int
    } else if x > VALUE_LIMIT {
        VALUE_LIMIT as int
    } else {
        x
    }
}

/// The learning target: `lr * (reward + gamma * next_max)`.
pub open spec fn spec_target(lr: int, gamma: int, reward: int, next_max: int) -> int {
    scale_down(lr * (reward + scale_down(gamma * next_max)))
}

/// The temporal-difference blend: `(1 - lr) * prior + lr * (reward + gamma * next_max)`,
/// saturated into the action-value range.
pub open spec fn spec_blend(lr: int, gamma: int, reward: int, prior: int, next_max: int) -> int {
    clamp_value(scale_down((ONE - lr) * prior) + spec_target(lr, gamma, reward, next_max))
}

/// The exploration rate after one learning step: `epsilon * 0.9`.
pub open spec fn spec_decay(epsilon: int) -> int {
    scale_down(epsilon * DECAY_FACTOR)
}

/// Exec counterpart of `scale_down`.
pub fn div_by_one(x: i64) -> (r: i64)
    requires
        -0x7fff_ffff_ffff_ffff <= x,
    ensures
        r == scale_down(x as int),
{
    if x >= 0 {
        x / ONE
    } else {
        -((-x) / ONE)
    }
}

/// Exec counterpart of `clamp_value`.
pub fn saturate(x: i64) -> (r: i64)
    ensures
        r == clamp_value(x as int),
        in_value_range(r as int),
{
    if x < -VALUE_LIMIT {
        -VALUE_LIMIT
    } else if x > VALUE_LIMIT {
        VALUE_LIMIT
    } else {
        x
    }
}

/// `scale_down` keeps a product of a rate and a bounded value inside the bound.
proof fn lemma_scale_down_bound(x: int, b: int)
    requires
        0 <= b,
        -(b * (ONE as int)) <= x <= b * (ONE as int),
    ensures
        -b <= scale_down(x) <= b,
{
    if x >= 0 {
        assert(x / (ONE as int) <= b && x / (ONE as int) >= 0) by (nonlinear_arith)
            requires
                0 <= x <= b * 1_000_000,
        ;
    } else {
        assert((-x) / (ONE as int) <= b && (-x) / (ONE as int) >= 0) by (nonlinear_arith)
            requires
                0 < -x <= b * 1_000_000,
        ;
    }
}

/// Exec counterpart of `spec_blend`: the verified TD update step.
pub fn td_blend(lr: i64, gamma: i64, reward: i64, prior: i64, next_max: i64) -> (r: i64)
    requires
        is_rate(lr as int),
        is_rate(gamma as int),
        in_value_range(reward as int),
        in_value_range(prior as int),
        in_value_range(next_max as int),
    ensures
        r == spec_blend(lr as int, gamma as int, reward as int, prior as int, next_max as int),
        in_value_range(r as int),
{
    proof {
        assert(gamma * next_max <= 1_000_000_000_000_000_000
            && gamma * next_max >= -1_000_000_000_000_000_000) by (nonlinear_arith)
            requires
                0 <= gamma <= 1_000_000,
                -1_000_000_000_000 <= next_max <= 1_000_000_000_000,
        ;
        lemma_scale_down_bound(gamma as int * next_max as int, VALUE_LIMIT as int);
    }
    let discounted: i64 = div_by_one(gamma * next_max);
    proof {
        assert(lr * (reward + discounted) <= 2_000_000_000_000_000_000
            && lr * (reward + discounted) >= -2_000_000_000_000_000_000) by (nonlinear_arith)
            requires
                0 <= lr <= 1_000_000,
                -2_000_000_000_000 <= reward + discounted <= 2_000_000_000_000,
        ;
        lemma_scale_down_bound(lr as int * (reward as int + discounted as int),
            2 * VALUE_LIMIT as int);
    }
    let target: i64 = div_by_one(lr * (reward + discounted));
    proof {
        assert((1_000_000 - lr) * prior <= 1_000_000_000_000_000_000
            && (1_000_000 - lr) * prior >= -1_000_000_000_000_000_000) by (nonlinear_arith)
            requires
                0 <= lr <= 1_000_000,
                -1_000_000_000_000 <= prior <= 1_000_000_000_000,
        ;
        lemma_scale_down_bound((ONE - lr) as int * prior as int, VALUE_LIMIT as int);
    }
    let kept: i64 = div_by_one((ONE - lr) * prior);
    saturate(kept + target)
}

/// Exec counterpart of `spec_decay`. The exploration rate never increases,
/// and while it is positive each step strictly shrinks it toward zero.
pub fn decay_rate(epsilon: i64) -> (r: i64)
    requires
        is_rate(epsilon as int),
    ensures
        r == spec_decay(epsilon as int),
        is_rate(r as int),
        r <= epsilon,
        epsilon > 0 ==> r < epsilon,
{
    proof {
        lemma_decay_properties(epsilon as int);
    }
    div_by_one(epsilon * DECAY_FACTOR)
}

/// Decaying a rate yields a rate, never increases it, and strictly shrinks a
/// positive rate: repeated decay converges toward zero.
pub proof fn lemma_decay_properties(epsilon: int)
    requires
        is_rate(epsilon),
    ensures
        is_rate(spec_decay(epsilon)),
        spec_decay(epsilon) <= epsilon,
        epsilon > 0 ==> spec_decay(epsilon) < epsilon,
{
    assert(epsilon * 900_000 >= 0) by (nonlinear_arith)
        requires
            epsilon >= 0,
    ;
    assert((epsilon * 900_000) / 1_000_000 <= epsilon
        && (epsilon > 0 ==> (epsilon * 900_000) / 1_000_000 < epsilon)
        && (epsilon <= 1_000_000 ==> (epsilon * 900_000) / 1_000_000 <= 1_000_000))
        by (nonlinear_arith)
        requires
            0 <= epsilon <= 1_000_000,
    ;
}

} // verus!
