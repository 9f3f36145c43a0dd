//! Fixed-point sample arithmetic.
//!
//! Samples and fractional buffer offsets are integers scaled by `SCALE`:
//! a value of `SCALE` stands for 1.0. Linear interpolation between two
//! samples is exact integer arithmetic on these representations.

use vstd::prelude::*;
use vstd::arithmetic::div_mod::{
    lemma_div_is_ordered, lemma_div_multiples_vanish, lemma_div_pos_is_pos,
};

verus! {

/// Number of fixed-point units that stand for 1.0.
pub const SCALE: i64 = 65536;

/// Division of `x` by `SCALE`, truncated toward zero.
pub open spec fn div_scale(x: int) -> int {
    if x >= 0 {
        x / (SCALE as int)
    } else {
        -((-x) / (SCALE as int))
    }
}

/// Linear interpolation between `a` (weight `SCALE - f`) and `b` (weight `f`),
/// where `f` is a fixed-point fraction in `[0, SCALE]`.
pub open spec fn interp(a: int, b: int, f: int) -> int {
    div_scale(a * (SCALE as int - f) + b * f)
}

/// A multiple of `SCALE` divides back exactly.
pub proof fn lemma_div_scale_mul(v: int)
    ensures
        div_scale(v * (SCALE as int)) == v,
{
    let s = SCALE as int;
    if v >= 0 {
        assert(v * s >= 0) by (nonlinear_arith)
            requires v >= 0, s > 0;
        lemma_div_multiples_vanish(v, s);
        assert((s * v) / s == v);
        assert(s * v == v * s) by (nonlinear_arith);
    } else {
        assert(v * s < 0) by (nonlinear_arith)
            requires v < 0, s > 0;
        assert(-(v * s) == (-v) * s) by (nonlinear_arith);
        lemma_div_multiples_vanish(-v, s);
        assert((s * (-v)) / s == -v);
        assert(s * (-v) == (-v) * s) by (nonlinear_arith);
    }
}

/// `div_scale` stays between any pair of bounds given as multiples of `SCALE`.
pub proof fn lemma_div_scale_between(x: int, lo: int, hi: int)
    requires
        lo * (SCALE as int) <= x,
        x <= hi * (SCALE as int),
    ensures
        lo <= div_scale(x),
        div_scale(x) <= hi,
{
    let s = SCALE as int;
    if x >= 0 {
        // div_scale(x) == x / s
        lemma_div_is_ordered(x, hi * s, s);
        lemma_div_multiples_vanish(hi, s);
        assert(s * hi == hi * s) by (nonlinear_arith);
        assert(x / s <= hi);
        if lo >= 0 {
            lemma_div_is_ordered(lo * s, x, s);
            lemma_div_multiples_vanish(lo, s);
            assert(s * lo == lo * s) by (nonlinear_arith);
            assert(lo <= x / s);
        } else {
            lemma_div_pos_is_pos(x, s);
            assert(lo <= x / s);
        }
    } else {
        // div_scale(x) == -((-x) / s), with -x > 0
        // lower bound: lo * s <= x < 0 forces lo < 0
        assert(lo < 0) by (nonlinear_arith)
            requires lo * s <= x, x < 0, s > 0;
        assert(-x <= (-lo) * s) by (nonlinear_arith)
            requires lo * s <= x;
        lemma_div_is_ordered(-x, (-lo) * s, s);
        lemma_div_multiples_vanish(-lo, s);
        assert(s * (-lo) == (-lo) * s) by (nonlinear_arith);
        assert((-x) / s <= -lo);
        assert(lo <= div_scale(x));
        // upper bound
        if hi >= 0 {
            lemma_div_pos_is_pos(-x, s);
            assert(div_scale(x) <= 0);
        } else {
            assert((-hi) * s <= -x) by (nonlinear_arith)
                requires x <= hi * s;
            lemma_div_is_ordered((-hi) * s, -x, s);
            lemma_div_multiples_vanish(-hi, s);
            assert(s * (-hi) == (-hi) * s) by (nonlinear_arith);
            assert(-hi <= (-x) / s);
            assert(div_scale(x) <= hi);
        }
    }
}

/// Interpolating with fraction 0 returns the left sample exactly.
pub proof fn lemma_interp_left(a: int, b: int)
    ensures
        interp(a, b, 0) == a,
{
    let s = SCALE as int;
    assert(a * (s - 0) + b * 0 == a * s) by (nonlinear_arith);
    lemma_div_scale_mul(a);
}

/// Interpolating between two equal samples returns that sample exactly,
/// whatever the fraction.
pub proof fn lemma_interp_same(v: int, f: int)
    requires
        0 <= f <= SCALE as int,
    ensures
        interp(v, v, f) == v,
{
    let s = SCALE as int;
    assert(v * (s - f) + v * f == v * s) by (nonlinear_arith);
    lemma_div_scale_mul(v);
}

/// The interpolated value lies between the two samples.
pub proof fn lemma_interp_between(a: int, b: int, f: int)
    requires
        0 <= f <= SCALE as int,
    ensures
        (if a <= b { a } else { b }) <= interp(a, b, f),
        interp(a, b, f) <= (if a <= b { b } else { a }),
{
    let s = SCALE as int;
    let lo = if a <= b { a } else { b };
    let hi = if a <= b { b } else { a };
    assert(lo * s <= a * (s - f) + b * f) by (nonlinear_arith)
        requires lo <= a, lo <= b, 0 <= f, f <= s;
    assert(a * (s - f) + b * f <= hi * s) by (nonlinear_arith)
        requires a <= hi, b <= hi, 0 <= f, f <= s;
    lemma_div_scale_between(a * (s - f) + b * f, lo, hi);
}

/// Interpolates between two fixed-point samples: `a` weighted by
/// `SCALE - f` and `b` weighted by `f`, the sum divided by `SCALE`
/// with truncation toward zero.
pub fn lerp(a: i64, b: i64, f: i64) -> (r: i64)
    requires
        0 <= f <= SCALE,
    ensures
        r as int == interp(a as int, b as int, f as int),
{
    let s = SCALE as i128;
    let fw = f as i128;
    let aw = a as i128;
    let bw = b as i128;
    proof {
        let bound: int = 0x8000_0000_0000_0000;
        assert(aw * (s - fw) <= bound * (SCALE as int) && -(bound * (SCALE as int)) <= aw * (s - fw))
            by (nonlinear_arith)
            requires -bound <= aw < bound, 0 <= s - fw <= SCALE as int, s == SCALE as int;
        assert(bw * fw <= bound * (SCALE as int) && -(bound * (SCALE as int)) <= bw * fw)
            by (nonlinear_arith)
            requires -bound <= bw < bound, 0 <= fw <= SCALE as int;
    }
    let x: i128 = aw * (s - fw) + bw * fw;
    proof {
        lemma_interp_between(a as int, b as int, f as int);
    }
    let q: i128 = if x >= 0 {
        ((x as u128) / (SCALE as u128)) as i128
    } else {
        let m: u128 = (-x) as u128;
        -((m / (SCALE as u128)) as i128)
    };
    proof {
        assert(q == div_scale(x as int));
    }
    q as i64
}

} // verus!
