//! The scalar force kernel.
//!
//! Maps a normalized distance `r` (fixed-point, in `[0, SCALE)` for
//! particles within the interaction radius) and an attraction
//! coefficient to a force magnitude:
//!
//! - `r < beta`: `r / beta - 1`, always repulsive, independent of the
//!   attraction coefficient;
//! - `beta <= r < 1`: the coefficient scaled by a triangular profile
//!   that peaks at `1` midway between `beta` and `1` and vanishes at
//!   both ends;
//! - `r >= 1`: zero.

use vstd::prelude::*;
use crate::fixed::{
    SCALE, abs_i, clamp64, fix_div, fix_div_s, fix_mul, fix_mul_s, lemma_tdiv_bounds, tdiv,
};

verus! {

/// The force magnitude for normalized distance `r`, attraction `a`,
/// and repulsion-to-attraction transition point `beta`.
pub open spec fn kernel_s(r: int, a: int, beta: int) -> int {
    if r < beta {
        fix_div_s(r, beta) - SCALE
    } else if r < SCALE {
        fix_mul_s(a, SCALE - fix_div_s(abs_i(2 * r - SCALE - beta), SCALE - beta))
    } else {
        0
    }
}

pub fn calculate_force(r: i64, attraction: i64, beta: i64) -> (f: i64)
    requires
        0 <= r,
        0 < beta < SCALE,
    ensures
        f as int == kernel_s(r as int, attraction as int, beta as int),
{
    if r < beta {
        let q: i64 = fix_div(r, beta);
        proof {
            assert((r as int) * (SCALE as int) < (beta as int) * (SCALE as int))
                by (nonlinear_arith)
                requires
                    0 <= r < beta,
                    SCALE == 1_000_000,
            ;
            lemma_tdiv_bounds(r as int * SCALE as int, beta as int, SCALE as int);
        }
        q - SCALE
    } else if r < SCALE {
        let u: i64 = 2 * r - SCALE - beta;
        let t: i64 = if u < 0 {
            -u
        } else {
            u
        };
        let d: i64 = SCALE - beta;
        let frac: i64 = fix_div(t, d);
        proof {
            assert(t <= d);
            assert((t as int) * (SCALE as int) < (d as int) * (SCALE as int + 1))
                by (nonlinear_arith)
                requires
                    0 <= t <= d,
                    0 < d,
                    SCALE == 1_000_000,
            ;
            lemma_tdiv_bounds(t as int * SCALE as int, d as int, SCALE as int + 1);
        }
        fix_mul(attraction, SCALE - frac)
    } else {
        0
    }
}

/// Below the transition point the kernel is repulsive (strictly
/// negative) and does not depend on the attraction coefficient.
pub proof fn lemma_kernel_repulsive(r: int, a1: int, a2: int, beta: int)
    requires
        0 <= r < beta,
        0 < beta < SCALE,
    ensures
        kernel_s(r, a1, beta) == kernel_s(r, a2, beta),
        kernel_s(r, a1, beta) < 0,
{
    assert((r * SCALE) < beta * SCALE) by (nonlinear_arith)
        requires
            0 <= r < beta,
            SCALE == 1_000_000,
    ;
    lemma_tdiv_bounds(r * SCALE, beta, SCALE as int);
}

/// At the midpoint of the attraction band the triangular profile is
/// exactly `1`, so the kernel reproduces the attraction coefficient
/// unscaled.
pub proof fn lemma_kernel_peak(r: int, a: int, beta: int)
    requires
        0 < beta < SCALE,
        2 * r == SCALE + beta,
        i64::MIN <= a <= i64::MAX,
    ensures
        kernel_s(r, a, beta) == a,
{
    assert(beta <= r < SCALE);
    assert(abs_i(2 * r - SCALE - beta) == 0);
    lemma_tdiv_bounds(0, SCALE - beta, 1);
    assert(fix_div_s(0, SCALE - beta) == 0);
    assert(kernel_s(r, a, beta) == fix_mul_s(a, SCALE as int));
    if a >= 0 {
        vstd::arithmetic::div_mod::lemma_div_multiples_vanish(a, SCALE as int);
        assert(a * SCALE == SCALE * a) by (nonlinear_arith);
        assert(tdiv(a * SCALE, SCALE as int) == a);
    } else {
        vstd::arithmetic::div_mod::lemma_div_multiples_vanish(-a, SCALE as int);
        assert(abs_i(a * SCALE) == SCALE * (-a)) by (nonlinear_arith)
            requires
                a < 0,
                SCALE == 1_000_000,
        ;
        assert(tdiv(a * SCALE, SCALE as int) == a);
    }
    assert(clamp64(a) == a);
}

/// For an attraction coefficient of magnitude at most one, the kernel
/// magnitude is at most one.
pub proof fn lemma_kernel_bound(r: int, a: int, beta: int)
    requires
        0 <= r,
        0 < beta < SCALE,
        abs_i(a) <= SCALE,
    ensures
        abs_i(kernel_s(r, a, beta)) <= SCALE,
{
    if r < beta {
        assert(r * SCALE < beta * SCALE) by (nonlinear_arith)
            requires
                0 <= r < beta,
                SCALE == 1_000_000,
        ;
        lemma_tdiv_bounds(r * SCALE, beta, SCALE as int);
    } else if r < SCALE {
        let t = abs_i(2 * r - SCALE - beta);
        assert(t <= SCALE - beta);
        assert(abs_i(t * SCALE) <= (SCALE - beta) * SCALE) by (nonlinear_arith)
            requires
                0 <= t <= SCALE - beta,
                0 < beta < SCALE,
        ;
        crate::fixed::lemma_tdiv_shrink(t * SCALE, SCALE - beta, SCALE as int);
        let w = SCALE - fix_div_s(t, SCALE - beta);
        assert(0 <= w <= SCALE);
        assert(abs_i(a * w) <= SCALE * (SCALE as int)) by (nonlinear_arith)
            requires
                abs_i(a) <= SCALE,
                0 <= w <= SCALE,
        ;
        crate::fixed::lemma_tdiv_shrink(a * w, SCALE as int, SCALE as int);
    } else {
    }
}

/// Beyond the interaction radius the kernel vanishes.
pub proof fn lemma_kernel_far(r: int, a: int, beta: int)
    requires
        r >= SCALE,
        beta <= SCALE,
    ensures
        kernel_s(r, a, beta) == 0,
{
}

} // verus!
