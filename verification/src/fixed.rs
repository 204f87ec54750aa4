//! Signed fixed-point scalars: an `i64` holds a real number scaled by
//! `FX_ONE` (2^16). Addition and subtraction are the plain integer
//! operations; multiplication, division and square root truncate toward
//! zero, and every operation here states its result exactly over the
//! mathematical integers.

use vstd::prelude::*;
use vstd::arithmetic::div_mod::{
    lemma_div_is_ordered, lemma_div_pos_is_pos, lemma_div_by_multiple, lemma_div_nonincreasing,
    lemma_fundamental_div_mod,
};

verus! {

/// The fixed-point representation of the real number 1.
pub const FX_ONE: i64 = 65536;

/// Division truncating toward zero, as the machine division of two
/// signed integers behaves (`b` is always positive where this is used).
pub open spec fn tdiv(a: int, b: int) -> int {
    if a >= 0 {
        a / b
    } else {
        -((-a) / b)
    }
}

/// The fixed-point product: `(a * b) / FX_ONE`, truncated toward zero.
pub open spec fn fx_mul_spec(a: int, b: int) -> int {
    tdiv(a * b, FX_ONE as int)
}

/// The fixed-point quotient: `(a * FX_ONE) / b`, truncated toward zero.
pub open spec fn fx_div_spec(a: int, b: int) -> int {
    tdiv(a * (FX_ONE as int), b)
}

/// A quotient with positive divisor keeps the sign of the dividend.
pub proof fn lemma_tdiv_sign(a: int, b: int)
    requires
        b > 0,
    ensures
        a >= 0 ==> tdiv(a, b) >= 0,
        a <= 0 ==> tdiv(a, b) <= 0,
{
    if a >= 0 {
        lemma_div_pos_is_pos(a, b);
    } else {
        lemma_div_pos_is_pos(-a, b);
    }
}

/// Truncating division by a positive divisor is monotone.
pub proof fn lemma_tdiv_ordered(x: int, y: int, d: int)
    requires
        d > 0,
        x <= y,
    ensures
        tdiv(x, d) <= tdiv(y, d),
{
    if x >= 0 {
        lemma_div_is_ordered(x, y, d);
    } else if y < 0 {
        lemma_div_is_ordered(-y, -x, d);
    } else {
        lemma_tdiv_sign(x, d);
        lemma_tdiv_sign(y, d);
    }
}

/// `|tdiv(a, b)| <= bound` whenever `|a| <= bound * b`.
pub proof fn lemma_tdiv_bound(a: int, b: int, bound: int)
    requires
        b > 0,
        0 <= bound,
        -(bound * b) <= a <= bound * b,
    ensures
        -bound <= tdiv(a, b) <= bound,
{
    lemma_div_by_multiple(bound, b);
    if a >= 0 {
        lemma_div_pos_is_pos(a, b);
        lemma_div_is_ordered(a, bound * b, b);
    } else {
        lemma_div_pos_is_pos(-a, b);
        lemma_div_is_ordered(-a, bound * b, b);
    }
}

/// The remainder of a truncating division is smaller than the divisor:
/// `v - tdiv(v, d) * d` lies strictly between `-d` and `d`.
pub proof fn lemma_tdiv_remainder(v: int, d: int)
    requires
        d > 0,
    ensures
        -(d - 1) <= v - tdiv(v, d) * d <= d - 1,
{
    if v >= 0 {
        lemma_fundamental_div_mod(v, d);
        assert((v / d) * d == d * (v / d)) by (nonlinear_arith);
    } else {
        lemma_fundamental_div_mod(-v, d);
        assert((-((-v) / d)) * d == -(d * ((-v) / d))) by (nonlinear_arith);
    }
}

/// Truncating division by a positive divisor never grows the magnitude.
pub proof fn lemma_tdiv_shrinks(a: int, b: int)
    requires
        b > 0,
    ensures
        -a <= tdiv(a, b) <= a || a <= tdiv(a, b) <= -a,
        a >= 0 ==> 0 <= tdiv(a, b) <= a,
        a <= 0 ==> a <= tdiv(a, b) <= 0,
{
    if a >= 0 {
        lemma_div_pos_is_pos(a, b);
        lemma_div_nonincreasing(a, b);
    } else {
        lemma_div_pos_is_pos(-a, b);
        lemma_div_nonincreasing(-a, b);
    }
}

/// Multiplying by a factor in `[0, FX_ONE]` never grows a nonnegative
/// scalar: `0 <= fx_mul_spec(a, b) <= c` when `0 <= a <= FX_ONE` and
/// `0 <= b <= c`.
pub proof fn lemma_fx_mul_unit_interval(a: int, b: int, c: int)
    requires
        0 <= a <= FX_ONE as int,
        0 <= b <= c,
    ensures
        0 <= fx_mul_spec(a, b) <= c,
{
    assert(a * b <= (FX_ONE as int) * c) by (nonlinear_arith)
        requires
            0 <= a <= FX_ONE as int,
            0 <= b <= c,
    ;
    assert(a * b >= 0) by (nonlinear_arith)
        requires
            0 <= a,
            0 <= b,
    ;
    lemma_tdiv_bound(a * b, FX_ONE as int, c);
    lemma_tdiv_sign(a * b, FX_ONE as int);
}

/// A product of scalars bounded by `ba` and `bb` stays within `ba * bb`,
/// and in particular within the dividend range that `fx_mul` accepts.
pub proof fn lemma_mul_in_range(a: int, b: int, ba: int, bb: int)
    by (nonlinear_arith)
    requires
        -ba <= a <= ba,
        -bb <= b <= bb,
        0 <= ba,
        0 <= bb,
        ba * bb <= (i64::MAX as int) * (FX_ONE as int),
    ensures
        -((i64::MAX as int) * (FX_ONE as int)) <= a * b <= (i64::MAX as int) * (FX_ONE as int),
        -(ba * bb) <= a * b <= ba * bb,
{
}

/// The fixed-point product of scalars bounded by `ba` and `bb` is bounded
/// by any `rb` with `ba * bb <= rb * FX_ONE`.
pub proof fn lemma_fx_mul_spec_bound(a: int, b: int, ba: int, bb: int, rb: int)
    requires
        -ba <= a <= ba,
        -bb <= b <= bb,
        0 <= ba,
        0 <= bb,
        0 <= rb,
        ba * bb <= rb * (FX_ONE as int),
    ensures
        -rb <= fx_mul_spec(a, b) <= rb,
{
    assert(-(rb * (FX_ONE as int)) <= a * b <= rb * (FX_ONE as int)) by (nonlinear_arith)
        requires
            -ba <= a <= ba,
            -bb <= b <= bb,
            0 <= ba,
            0 <= bb,
            ba * bb <= rb * (FX_ONE as int),
    ;
    lemma_tdiv_bound(a * b, FX_ONE as int, rb);
}

/// A fixed-point square is never negative.
pub proof fn lemma_fx_square_nonneg(a: int)
    ensures
        0 <= fx_mul_spec(a, a),
{
    assert(a * a >= 0) by (nonlinear_arith);
    lemma_tdiv_sign(a * a, FX_ONE as int);
}

/// The fixed-point product, exact per `fx_mul_spec`. The intermediate
/// product is taken in 128 bits, so only the final quotient must fit.
pub fn fx_mul(a: i64, b: i64) -> (r: i64)
    requires
        -((i64::MAX as int) * (FX_ONE as int)) <= (a as int) * (b as int) <= (i64::MAX as int) * (
        FX_ONE as int),
    ensures
        r == fx_mul_spec(a as int, b as int),
{
    let p: i128 = (a as i128) * (b as i128);
    let q: i128 = p / (FX_ONE as i128);
    proof {
        lemma_tdiv_bound(p as int, FX_ONE as int, i64::MAX as int);
    }
    q as i64
}

/// The fixed-point quotient, exact per `fx_div_spec`. The divisor must be
/// positive; the bound on `a` keeps the scaled dividend within range.
pub fn fx_div(a: i64, b: i64) -> (r: i64)
    requires
        b > 0,
        -0x7fff_ffff_ffff <= a <= 0x7fff_ffff_ffff,
    ensures
        r == fx_div_spec(a as int, b as int),
{
    let p: i128 = (a as i128) * 65536;
    let q: i128 = p / (b as i128);
    proof {
        lemma_tdiv_shrinks(p as int, b as int);
        assert(-0x7fff_ffff_ffff_ffff <= (p as int) <= 0x7fff_ffff_ffff_ffff)
            by (nonlinear_arith)
            requires
                p as int == (a as int) * 65536,
                -0x7fff_ffff_ffff <= (a as int) <= 0x7fff_ffff_ffff,
        ;
    }
    q as i64
}

/// The integer square root, defined by counting up; `lemma_isqrt_props`
/// gives its characteristic bounds.
pub open spec fn isqrt_spec(n: int) -> int
    decreases n,
{
    if n <= 0 {
        0
    } else {
        let p = isqrt_spec(n - 1);
        if (p + 1) * (p + 1) <= n {
            p + 1
        } else {
            p
        }
    }
}

/// `isqrt_spec(n)` is the unique `r` with `r^2 <= n < (r+1)^2`.
pub proof fn lemma_isqrt_props(n: int)
    requires
        n >= 0,
    ensures
        0 <= isqrt_spec(n),
        isqrt_spec(n) * isqrt_spec(n) <= n,
        n < (isqrt_spec(n) + 1) * (isqrt_spec(n) + 1),
    decreases n,
{
    if n == 0 {
        assert(isqrt_spec(0) == 0);
    } else {
        lemma_isqrt_props(n - 1);
        let p = isqrt_spec(n - 1);
        assert(p * p <= n - 1);
        assert(n - 1 < (p + 1) * (p + 1));
        if (p + 1) * (p + 1) <= n {
            let s = isqrt_spec(n);
            assert(s == p + 1);
            assert(n == (p + 1) * (p + 1));
            assert((s + 1) * (s + 1) > (p + 1) * (p + 1)) by (nonlinear_arith)
                requires
                    s == p + 1,
                    p >= 0,
            ;
        } else {
            assert(isqrt_spec(n) == p);
        }
    }
}

/// Any `r` satisfying the square-root bounds equals `isqrt_spec(n)`.
pub proof fn lemma_isqrt_unique(n: int, r: int)
    requires
        0 <= r,
        r * r <= n,
        n < (r + 1) * (r + 1),
    ensures
        r == isqrt_spec(n),
{
    lemma_isqrt_props(n);
    let s = isqrt_spec(n);
    if r < s {
        assert((r + 1) * (r + 1) <= s * s) by (nonlinear_arith)
            requires
                0 <= r,
                r + 1 <= s,
        ;
    }
    if s < r {
        assert((s + 1) * (s + 1) <= r * r) by (nonlinear_arith)
            requires
                0 <= s,
                s + 1 <= r,
        ;
    }
}

/// The integer square root is monotone.
pub proof fn lemma_isqrt_ordered(a: int, b: int)
    requires
        0 <= a <= b,
    ensures
        isqrt_spec(a) <= isqrt_spec(b),
{
    lemma_isqrt_props(a);
    lemma_isqrt_props(b);
    let ra = isqrt_spec(a);
    let rb = isqrt_spec(b);
    if rb < ra {
        assert((rb + 1) * (rb + 1) <= ra * ra) by (nonlinear_arith)
            requires
                0 <= rb,
                rb + 1 <= ra,
        ;
    }
}

/// Binary search for the integer square root of an unsigned 128-bit value.
pub fn isqrt(n: u128) -> (r: u128)
    ensures
        r == isqrt_spec(n as int),
        (r as int) * (r as int) <= n < (r as int + 1) * (r as int + 1),
        r < 0x1_0000_0000_0000_0000,
{
    let mut lo: u128 = 0;
    let mut hi: u128 = 0x1_0000_0000_0000_0000;
    proof {
        assert((hi as int) * (hi as int) > n as int) by (nonlinear_arith)
            requires
                hi == 0x1_0000_0000_0000_0000u128,
                n <= u128::MAX,
        ;
    }
    while lo + 1 < hi
        invariant
            lo < hi <= 0x1_0000_0000_0000_0000,
            (lo as int) * (lo as int) <= n as int,
            (n as int) < (hi as int) * (hi as int),
        decreases hi - lo,
    {
        let mid: u128 = lo + (hi - lo) / 2;
        proof {
            assert((mid as int) * (mid as int) <= u128::MAX as int) by (nonlinear_arith)
                requires
                    0 <= (mid as int) < 0x1_0000_0000_0000_0000int,
            ;
        }
        if mid * mid <= n {
            lo = mid;
        } else {
            hi = mid;
        }
    }
    proof {
        lemma_isqrt_unique(n as int, lo as int);
    }
    lo
}

/// The fixed-point square root: `isqrt((x * FX_ONE))`, so that the result
/// carries the same scale as the argument.
pub open spec fn fx_sqrt_spec(x: int) -> int {
    isqrt_spec(x * (FX_ONE as int))
}

/// The fixed-point square root of a nonnegative scalar.
pub fn fx_sqrt(x: i64) -> (r: i64)
    requires
        x >= 0,
    ensures
        r == fx_sqrt_spec(x as int),
        0 <= r < 0x100_0000_0000,
        (r as int) * (r as int) <= (x as int) * (FX_ONE as int),
{
    let n: u128 = (x as u128) * 65536;
    let r = isqrt(n);
    proof {
        let ri = r as int;
        assert(n as int == (x as int) * 65536);
        assert(ri < 0x100_0000_0000) by (nonlinear_arith)
            requires
                ri * ri <= n as int,
                (n as int) < 0x8000_0000_0000_0000_0000int,
                ri >= 0,
        ;
    }
    r as i64
}

/// Clamp a scalar to an inclusive interval.
pub open spec fn clamp_spec(x: int, lo: int, hi: int) -> int {
    if x < lo {
        lo
    } else if x > hi {
        hi
    } else {
        x
    }
}

/// Clamp a scalar to `[lo, hi]`, exactly as `clamp_spec` says.
pub fn clamp(x: i64, lo: i64, hi: i64) -> (r: i64)
    ensures
        r == clamp_spec(x as int, lo as int, hi as int),
{
    if x < lo {
        lo
    } else if x > hi {
        hi
    } else {
        x
    }
}

} // verus!
