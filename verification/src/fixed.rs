//! Saturating fixed-point scalar arithmetic.
//!
//! A scalar is an `i64` counting units of `1 / SCALE`. Sums and products
//! are computed exactly in `i128` and then clamped into the `i64` range;
//! divisions truncate toward zero.

use vstd::prelude::*;

verus! {

/// Number of fixed-point units in one whole unit; the value `1.0` is `SCALE`.
pub const SCALE: i64 = 1_000_000;

/// Absolute value of a mathematical integer.
pub open spec fn abs_i(x: int) -> int {
    if x < 0 {
        -x
    } else {
        x
    }
}

/// Clamp a mathematical integer into the `i64` range.
pub open spec fn clamp64(x: int) -> int {
    if x > i64::MAX as int {
        i64::MAX as int
    } else if x < i64::MIN as int {
        i64::MIN as int
    } else {
        x
    }
}

/// Quotient of `a` and `b` truncated toward zero; `0` when `b == 0`.
/// (The spec operator `/` rounds toward negative infinity for a
/// positive divisor, so negative operands are handled by magnitude.)
pub open spec fn tdiv(a: int, b: int) -> int {
    if b == 0 {
        0
    } else {
        let q = abs_i(a) / abs_i(b);
        if (a < 0) != (b < 0) {
            -q
        } else {
            q
        }
    }
}

/// Saturating fixed-point addition.
pub open spec fn sat_add_s(a: int, b: int) -> int {
    clamp64(a + b)
}

/// Saturating fixed-point subtraction.
pub open spec fn sat_sub_s(a: int, b: int) -> int {
    clamp64(a - b)
}

/// Saturating fixed-point product: `a * b / SCALE`, truncated toward zero.
pub open spec fn fix_mul_s(a: int, b: int) -> int {
    clamp64(tdiv(a * b, SCALE as int))
}

/// Saturating fixed-point quotient: `a * SCALE / b`, truncated toward zero.
pub open spec fn fix_div_s(a: int, b: int) -> int {
    clamp64(tdiv(a * SCALE, b))
}

/// `r` is the nonnegative integer square root of `x`.
pub open spec fn is_isqrt(x: int, r: int) -> bool {
    0 <= r && r * r <= x && (r + 1) * (r + 1) > x
}

/// The nonnegative integer square root: the greatest `r` with `r * r <= x`.
pub open spec fn isqrt_s(x: int) -> int {
    choose|r: int| is_isqrt(x, r)
}

pub proof fn lemma_isqrt_unique(x: int, r: int)
    requires
        0 <= r,
        r * r <= x,
        (r + 1) * (r + 1) > x,
    ensures
        isqrt_s(x) == r,
{
    assert(is_isqrt(x, r));
    let p = choose|p: int| is_isqrt(x, p);
    assert(is_isqrt(x, p));
    assert(p == r) by (nonlinear_arith)
        requires
            0 <= r,
            r * r <= x,
            (r + 1) * (r + 1) > x,
            0 <= p,
            p * p <= x,
            (p + 1) * (p + 1) > x,
    ;
}

/// For nonnegative operands, the truncating quotient is the spec `/`,
/// is nonnegative, and is below any `c` with `a < b * c`.
pub proof fn lemma_tdiv_bounds(a: int, b: int, c: int)
    requires
        0 <= a,
        0 < b,
        a < b * c,
    ensures
        tdiv(a, b) == a / b,
        0 <= tdiv(a, b) < c,
{
    vstd::arithmetic::div_mod::lemma_fundamental_div_mod(a, b);
    assert(0 <= a / b < c) by (nonlinear_arith)
        requires
            0 <= a,
            0 < b,
            a < b * c,
            a == b * (a / b) + a % b,
            0 <= a % b < b,
    ;
}

/// Every nonnegative integer has an integer square root, so
/// `isqrt_s` satisfies its defining property.
pub proof fn lemma_isqrt_exists(x: int)
    requires
        0 <= x,
    ensures
        is_isqrt(x, isqrt_s(x)),
    decreases x,
{
    if x == 0 {
        assert(is_isqrt(0, 0));
    } else {
        lemma_isqrt_exists(x - 1);
        let r = isqrt_s(x - 1);
        if (r + 1) * (r + 1) <= x {
            assert(is_isqrt(x, r + 1)) by (nonlinear_arith)
                requires
                    0 <= r,
                    r * r <= x - 1,
                    (r + 1) * (r + 1) <= x,
                    (r + 1) * (r + 1) > x - 1,
            ;
        } else {
            assert(is_isqrt(x, r));
        }
    }
}

/// Scaling by a factor in `[0, 1]` moves a value toward zero and
/// never past it.
pub proof fn lemma_fix_mul_between(x: int, s: int)
    requires
        0 <= s <= SCALE,
        i64::MIN <= x <= i64::MAX,
    ensures
        x >= 0 ==> 0 <= fix_mul_s(x, s) <= x,
        x <= 0 ==> x <= fix_mul_s(x, s) <= 0,
{
    assert(abs_i(x * s) <= SCALE * abs_i(x)) by (nonlinear_arith)
        requires
            0 <= s <= SCALE,
    ;
    lemma_tdiv_shrink(x * s, SCALE as int, abs_i(x));
    if x >= 0 {
        assert(x * s >= 0) by (nonlinear_arith)
            requires
                x >= 0,
                s >= 0,
        ;
    } else {
        assert(x * s <= 0) by (nonlinear_arith)
            requires
                x <= 0,
                s >= 0,
        ;
    }
}

/// Scaling by a factor of at least one moves a value away from zero
/// (or keeps it), never toward it: the loss can only round down to
/// the value itself, not below it.
pub proof fn lemma_fix_mul_dominates(x: int, s: int)
    requires
        s >= SCALE,
        i64::MIN <= x <= i64::MAX,
    ensures
        x >= 0 ==> fix_mul_s(x, s) >= x,
        x <= 0 ==> fix_mul_s(x, s) <= x,
{
    if x >= 0 {
        lemma_fix_mul_dominates_nonneg(x, s);
    } else {
        lemma_fix_mul_dominates_nonneg(-x, s);
        lemma_tdiv_neg(-(x * s), SCALE as int);
        assert((-x) * s == -(x * s)) by (nonlinear_arith);
    }
}

proof fn lemma_fix_mul_dominates_nonneg(x: int, s: int)
    requires
        s >= SCALE,
        0 <= x,
    ensures
        tdiv(x * s, SCALE as int) >= x,
{
    assert(x * SCALE <= x * s) by (nonlinear_arith)
        requires
            x >= 0,
            SCALE <= s,
    ;
    assert(x * s >= 0) by (nonlinear_arith)
        requires
            x >= 0,
            s >= 0,
    ;
    vstd::arithmetic::div_mod::lemma_div_is_ordered(x * SCALE, x * s, SCALE as int);
    vstd::arithmetic::div_mod::lemma_div_multiples_vanish(x, SCALE as int);
    assert(x * SCALE == SCALE * x) by (nonlinear_arith);
    assert(abs_i(x * s) == x * s);
    assert(tdiv(x * s, SCALE as int) == (x * s) / (SCALE as int));
}

/// Truncating division is odd: negating the dividend negates the
/// quotient.
pub proof fn lemma_tdiv_neg(a: int, b: int)
    ensures
        tdiv(-a, b) == -tdiv(a, b),
{
    assert(abs_i(-a) == abs_i(a));
}

/// A magnitude bound on the truncating quotient: if `|a| <= b * c`
/// then `|a / b| <= c`.
pub proof fn lemma_tdiv_shrink(a: int, b: int, c: int)
    requires
        0 < b,
        0 <= c,
        abs_i(a) <= b * c,
    ensures
        abs_i(tdiv(a, b)) <= c,
        a >= 0 ==> 0 <= tdiv(a, b) <= c,
        a <= 0 ==> -c <= tdiv(a, b) <= 0,
{
    assert(b * c < b * (c + 1)) by (nonlinear_arith)
        requires
            0 < b,
    ;
    lemma_tdiv_bounds(abs_i(a), b, c + 1);
    assert(tdiv(abs_i(a), b) <= c);
    if a >= 0 {
        assert(abs_i(a) == a);
    } else {
        lemma_tdiv_neg(-a, b);
        assert(tdiv(a, b) == -tdiv(-a, b));
        assert(abs_i(a) == -a);
    }
}

/// Clamp an exact `i128` value into the `i64` range.
pub fn clamp_to_i64(q: i128) -> (r: i64)
    ensures
        r as int == clamp64(q as int),
{
    if q > i64::MAX as i128 {
        i64::MAX
    } else if q < i64::MIN as i128 {
        i64::MIN
    } else {
        q as i64
    }
}

/// Truncating division of `i128` values, computed on magnitudes.
fn tdiv_i128(a: i128, b: i128) -> (r: i128)
    requires
        b != 0,
        a > i128::MIN,
        b > i128::MIN,
    ensures
        r as int == tdiv(a as int, b as int),
        abs_i(r as int) <= abs_i(a as int),
{
    let am: u128 = if a >= 0 {
        a as u128
    } else {
        (-a) as u128
    };
    let bm: u128 = if b >= 0 {
        b as u128
    } else {
        (-b) as u128
    };
    let q: u128 = am / bm;
    assert(q <= am);
    if (a < 0) != (b < 0) {
        -(q as i128)
    } else {
        q as i128
    }
}

/// Saturating addition.
pub fn sat_add(a: i64, b: i64) -> (r: i64)
    ensures
        r as int == sat_add_s(a as int, b as int),
{
    let s: i128 = a as i128 + b as i128;
    clamp_to_i64(s)
}

/// Saturating subtraction.
pub fn sat_sub(a: i64, b: i64) -> (r: i64)
    ensures
        r as int == sat_sub_s(a as int, b as int),
{
    let s: i128 = a as i128 - b as i128;
    clamp_to_i64(s)
}

/// Saturating fixed-point multiplication.
pub fn fix_mul(a: i64, b: i64) -> (r: i64)
    ensures
        r as int == fix_mul_s(a as int, b as int),
{
    proof {
        assert(i128::MIN < (a as int) * (b as int) < i128::MAX) by (nonlinear_arith)
            requires
                i64::MIN <= a <= i64::MAX,
                i64::MIN <= b <= i64::MAX,
        ;
    }
    let p: i128 = (a as i128) * (b as i128);
    let q: i128 = tdiv_i128(p, SCALE as i128);
    clamp_to_i64(q)
}

/// Saturating fixed-point division; returns `0` when `b == 0`.
pub fn fix_div(a: i64, b: i64) -> (r: i64)
    ensures
        r as int == fix_div_s(a as int, b as int),
{
    if b == 0 {
        assert(tdiv(a * SCALE, 0) == 0);
        0
    } else {
        proof {
            assert(i128::MIN < (a as int) * (SCALE as int) < i128::MAX) by (nonlinear_arith)
                requires
                    i64::MIN <= a <= i64::MAX,
                    SCALE == 1_000_000,
            ;
        }
        let p: i128 = (a as i128) * (SCALE as i128);
        let q: i128 = tdiv_i128(p, b as i128);
        clamp_to_i64(q)
    }
}

/// Exact integer square root by binary search.
pub fn isqrt(x: u128) -> (r: u128)
    requires
        (x as int) < 0x40000000000000000000000000000000,
    ensures
        r * r <= x,
        (r + 1) * (r + 1) > x,
        r as int == isqrt_s(x as int),
{
    let mut lo: u128 = 0;
    let mut hi: u128 = 0x8000000000000000;
    assert(hi * hi > x) by (nonlinear_arith)
        requires
            hi == 0x8000000000000000u128,
            (x as int) < 0x40000000000000000000000000000000,
    ;
    while lo + 1 < hi
        invariant
            lo < hi,
            hi <= 0x8000000000000000u128,
            lo * lo <= x,
            hi * hi > x,
        decreases hi - lo,
    {
        let mid: u128 = lo + (hi - lo) / 2;
        assert(lo < mid < hi);
        proof {
            assert((mid as int) * (mid as int) <= u128::MAX) by (nonlinear_arith)
                requires
                    mid < 0x8000000000000000u128,
            ;
        }
        if mid * mid <= x {
            lo = mid;
        } else {
            hi = mid;
        }
    }
    assert(hi == lo + 1);
    proof {
        lemma_isqrt_unique(x as int, lo as int);
    }
    lo
}

} // verus!
