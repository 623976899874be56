//! Scalar fixed-point arithmetic: the numeric ground floor of the renderer.
//!
//! A raw `i128` value `v` stands for the real number `v / SCALE`. Products and
//! quotients are truncated toward zero, exactly as `tdiv` specifies, so every
//! rounding step of the executable code has a name in the contracts.

use vstd::prelude::*;

verus! {

/// Raw units per world unit: the denominator of the fixed-point format.
pub const SCALE: i128 = 65536;

/// Largest coordinate magnitude (raw units) the intersection routines accept;
/// keeps every intermediate product of the quadratic solver inside `i128`.
pub const COORD_LIMIT: i128 = 0x4000_0000;

/// Largest ray-parameter magnitude (raw units) the intersection routines accept.
pub const T_LIMIT: i128 = 0x100_0000_0000;

/// Magnitude of an integer, kept in `int` so it composes with signed algebra.
pub open spec fn mag(x: int) -> int {
    if x >= 0 {
        x
    } else {
        -x
    }
}

/// Quotient rounded toward zero, the rounding of every fixed-point operation.
pub open spec fn tdiv(n: int, d: int) -> int
    recommends
        d != 0,
{
    if (n < 0) <==> (d < 0) {
        mag(n) / mag(d)
    } else {
        -(mag(n) / mag(d))
    }
}

/// Floor of the square root, defined by counting up.
pub open spec fn isqrt(n: int) -> int
    decreases n,
{
    if n <= 0 {
        0
    } else {
        let r = isqrt(n - 1);
        if (r + 1) * (r + 1) <= n {
            r + 1
        } else {
            r
        }
    }
}

/// `isqrt(n)` is the unique `r >= 0` with `r * r <= n < (r + 1) * (r + 1)`.
pub proof fn lemma_isqrt_bounds(n: int)
    requires
        n >= 0,
    ensures
        isqrt(n) >= 0,
        isqrt(n) * isqrt(n) <= n,
        n < (isqrt(n) + 1) * (isqrt(n) + 1),
    decreases n,
{
    if n > 0 {
        lemma_isqrt_bounds(n - 1);
        let r = isqrt(n - 1);
        if (r + 1) * (r + 1) <= n {
            assert((r + 2) * (r + 2) > (r + 1) * (r + 1)) by (nonlinear_arith)
                requires
                    r >= 0;
        }
    }
}

/// No two integers satisfy the square-root bracketing at once.
pub proof fn lemma_isqrt_unique(n: int, r: int)
    requires
        n >= 0,
        r >= 0,
        r * r <= n,
        n < (r + 1) * (r + 1),
    ensures
        r == isqrt(n),
{
    lemma_isqrt_bounds(n);
    let s = isqrt(n);
    if r < s {
        assert((r + 1) * (r + 1) <= s * s) by (nonlinear_arith)
            requires
                0 <= r + 1 <= s;
    } else if s < r {
        assert((s + 1) * (s + 1) <= r * r) by (nonlinear_arith)
            requires
                0 <= s + 1 <= r;
    }
}

/// A nonnegative numerator and positive denominator truncate to a quotient
/// between 0 and the numerator.
pub proof fn lemma_tdiv_nonneg(n: int, d: int)
    requires
        n >= 0,
        d > 0,
    ensures
        0 <= tdiv(n, d) <= n,
        tdiv(n, d) == n / d,
{
    assert(0 <= n / d <= n) by (nonlinear_arith)
        requires
            n >= 0,
            d >= 1;
}

/// Truncating division never grows magnitude when the divisor is at least 1.
pub proof fn lemma_tdiv_abs_le(n: int, d: int)
    requires
        d != 0,
    ensures
        mag(tdiv(n, d)) <= mag(n),
        mag(n) < mag(d) ==> tdiv(n, d) == 0,
{
    assert(0 <= mag(n) / mag(d) <= mag(n)) by (nonlinear_arith)
        requires
            mag(n) >= 0,
            mag(d) >= 1;
    if mag(n) < mag(d) {
        assert(mag(n) / mag(d) == 0) by (nonlinear_arith)
            requires
                0 <= mag(n) < mag(d);
    }
}

/// Quotients of larger numerators are no smaller in magnitude.
pub proof fn lemma_tdiv_mono(n1: int, n2: int, d: int)
    requires
        0 <= n1 <= n2,
        d > 0,
    ensures
        tdiv(n1, d) <= tdiv(n2, d),
{
    assert(n1 / d <= n2 / d) by (nonlinear_arith)
        requires
            0 <= n1 <= n2,
            d >= 1;
}

/// Exact multiples divide without loss.
pub proof fn lemma_tdiv_exact(k: int, d: int)
    requires
        d > 0,
    ensures
        tdiv(k * d, d) == k,
{
    if k >= 0 {
        assert((k * d) / d == k) by (nonlinear_arith)
            requires
                k >= 0,
                d >= 1;
        assert(mag(k * d) == k * d) by (nonlinear_arith)
            requires
                k >= 0,
                d >= 1;
    } else {
        assert(((-k) * d) / d == -k) by (nonlinear_arith)
            requires
                k < 0,
                d >= 1;
        assert(k * d < 0 && mag(k * d) == (-k) * d) by (nonlinear_arith)
            requires
                k < 0,
                d >= 1;
    }
}

/// Any nonnegative integer whose square is at most `n` is at most `isqrt(n)`.
pub proof fn lemma_isqrt_above(r: int, n: int)
    requires
        0 <= r,
        r * r <= n,
    ensures
        r <= isqrt(n),
{
    lemma_isqrt_bounds(n);
    if isqrt(n) < r {
        assert((isqrt(n) + 1) * (isqrt(n) + 1) <= r * r) by (nonlinear_arith)
            requires
                0 <= isqrt(n) + 1 <= r;
    }
}

/// Growing a positive divisor can only shrink a nonnegative quotient.
pub proof fn lemma_tdiv_mono_denom(n: int, d1: int, d2: int)
    requires
        n >= 0,
        0 < d1 <= d2,
    ensures
        tdiv(n, d2) <= tdiv(n, d1),
{
    assert(n / d2 <= n / d1) by (nonlinear_arith)
        requires
            n >= 0,
            0 < d1 <= d2;
}

/// The magnitude of a truncated quotient is the quotient of the magnitude.
pub proof fn lemma_tdiv_mag(n: int, d: int)
    requires
        d > 0,
    ensures
        mag(tdiv(n, d)) == mag(n) / d,
{
    lemma_tdiv_nonneg(mag(n), d);
}

/// A truncated quotient reproduces its numerator to within one divisor step.
pub proof fn lemma_tdiv_remainder(n: int, d: int)
    requires
        d > 0,
    ensures
        mag(n - d * tdiv(n, d)) < d,
{
    vstd::arithmetic::div_mod::lemma_fundamental_div_mod(mag(n), d);
    vstd::arithmetic::div_mod::lemma_mod_division_less_than_divisor(mag(n), d);
    lemma_tdiv_nonneg(mag(n), d);
    if n < 0 {
        lemma_tdiv_neg(mag(n), d);
        assert(d * tdiv(-mag(n), d) == -(d * tdiv(mag(n), d))) by (nonlinear_arith)
            requires
                tdiv(-mag(n), d) == -tdiv(mag(n), d);
    }
}

/// Dividing by the scale shrinks a magnitude bound by the scale.
pub proof fn lemma_tdiv_scale_bound(n: int, b: int)
    requires
        b >= 0,
        mag(n) <= b * SCALE,
    ensures
        mag(tdiv(n, SCALE as int)) <= b,
{
    lemma_tdiv_mag(n, SCALE as int);
    lemma_tdiv_mono(mag(n), b * (SCALE as int), SCALE as int);
    lemma_tdiv_exact(b, SCALE as int);
    lemma_tdiv_nonneg(mag(n), SCALE as int);
}

/// Truncation toward zero is odd in its numerator.
pub proof fn lemma_tdiv_neg(n: int, d: int)
    requires
        d > 0,
    ensures
        tdiv(-n, d) == -tdiv(n, d),
{
}

/// Magnitude of a product is bounded by the product of the bounds.
pub proof fn lemma_mul_mag(a: int, b: int, ba: int, bb: int) by (nonlinear_arith)
    requires
        mag(a) <= ba,
        mag(b) <= bb,
    ensures
        mag(a * b) <= ba * bb,
{
}

/// Squares are nonnegative and bounded by the square of the bound.
pub proof fn lemma_square_bounds(a: int, ba: int) by (nonlinear_arith)
    requires
        mag(a) <= ba,
    ensures
        0 <= a * a <= ba * ba,
{
}

/// Truncating division of `i128` words, computed on unsigned magnitudes.
pub fn div_trunc(n: i128, d: i128) -> (r: i128)
    requires
        d != 0,
        n > i128::MIN,
        d > i128::MIN,
    ensures
        r as int == tdiv(n as int, d as int),
        mag(r as int) <= mag(n as int),
{
    proof {
        lemma_tdiv_abs_le(n as int, d as int);
    }
    let nn: u128 = if n >= 0 {
        n as u128
    } else {
        (-n) as u128
    };
    let dd: u128 = if d >= 0 {
        d as u128
    } else {
        (-d) as u128
    };
    proof {
        assert(nn as int == mag(n as int));
        assert(dd as int == mag(d as int));
        assert(0 <= nn as int / dd as int <= nn as int) by (nonlinear_arith)
            requires
                nn as int >= 0,
                dd as int >= 1;
    }
    let q: u128 = nn / dd;
    if (n >= 0) == (d >= 0) {
        q as i128
    } else {
        -(q as i128)
    }
}

/// Floor square root of an `i128`, by bisection on unsigned words.
pub fn int_sqrt(n: i128) -> (r: i128)
    requires
        n >= 0,
    ensures
        r >= 0,
        r as int == isqrt(n as int),
        r * r <= n,
        n < (r + 1) * (r + 1),
{
    let nu: u128 = n as u128;
    let mut lo: u128 = 0;
    let mut hi: u128 = 0x1_0000_0000_0000_0000u128;
    proof {
        assert((hi as int) * (hi as int) > nu as int) by (nonlinear_arith)
            requires
                hi as int == 0x1_0000_0000_0000_0000,
                (nu as int) < 0x8000_0000_0000_0000_0000_0000_0000_0000;
    }
    while lo + 1 < hi
        invariant
            lo < hi <= 0x1_0000_0000_0000_0000u128,
            nu == n as u128,
            n >= 0,
            (lo as int) * (lo as int) <= nu as int,
            (nu as int) < (hi as int) * (hi as int),
        decreases hi - lo,
    {
        let mid: u128 = lo + (hi - lo) / 2;
        proof {
            assert(lo < mid < hi) by (nonlinear_arith)
                requires
                    mid == lo + (hi - lo) / 2,
                    lo + 1 < hi;
            assert((mid as int) * (mid as int) < 0x1_0000_0000_0000_0000_0000_0000_0000_0000)
                by (nonlinear_arith)
                requires
                    0 <= mid as int <= 0xffff_ffff_ffff_ffff;
        }
        if mid * mid <= nu {
            lo = mid;
        } else {
            hi = mid;
        }
    }
    proof {
        lemma_isqrt_unique(n as int, lo as int);
    }
    lo as i128
}

/// Fixed-point product: `a * b / SCALE`, truncated toward zero.
pub fn fx_mul(a: i128, b: i128) -> (r: i128)
    requires
        -(i128::MAX as int) <= (a as int) * (b as int) <= i128::MAX as int,
    ensures
        r as int == tdiv((a as int) * (b as int), SCALE as int),
        mag(r as int) * (SCALE as int) <= mag((a as int) * (b as int)),
{
    let p: i128 = a * b;
    proof {
        lemma_tdiv_abs_le(p as int, SCALE as int);
        lemma_tdiv_nonneg(mag(p as int), SCALE as int);
        assert((mag(p as int) / (SCALE as int)) * (SCALE as int) <= mag(p as int))
            by (nonlinear_arith)
            requires
                mag(p as int) >= 0,
                SCALE as int >= 1;
    }
    div_trunc(p, SCALE)
}

/// Fixed-point quotient: `a * SCALE / b`, truncated toward zero.
pub fn fx_div(a: i128, b: i128) -> (r: i128)
    requires
        b != 0,
        b > i128::MIN,
        -(i128::MAX as int) <= (a as int) * (SCALE as int) <= i128::MAX as int,
    ensures
        r as int == tdiv((a as int) * (SCALE as int), b as int),
{
    let p: i128 = a * SCALE;
    div_trunc(p, b)
}

} // verus!
