//! Smoothing kernel: a radius-bounded falloff turning a distance into a
//! repulsion magnitude.
//!
//! In world units the kernel is `500 * (r^2 - d^2)^3 / (pi * r^8 / 4)` for
//! `d < r`, and zero beyond the radius. Here `pi` is the rational
//! `PI_NUM / PI_DEN`, and all quantities carry the fixed-point scale.

use vstd::prelude::*;
use crate::fixed::{SCALE, RADIUS_LIMIT, MAG_LIMIT};

verus! {

/// Numerator of the rational standing for pi.
pub const PI_NUM: i64 = 355;

/// Denominator of the rational standing for pi.
pub const PI_DEN: i64 = 113;

/// The kernel magnitude, in fixed-point raw units, for a distance `d` and a
/// radius `r`, both raw. The squared falloff term is clamped at zero, so the
/// value is zero whenever `d >= r`.
pub open spec fn smooth_spec(d: int, r: int) -> int {
    let value = if r * r - d * d >= 0 {
        r * r - d * d
    } else {
        0
    };
    let r2 = r * r;
    (2000 * SCALE * SCALE * SCALE * PI_DEN * value * value * value) / (PI_NUM * (r2 * r2 * r2
        * r2))
}

/// The kernel is non-negative, bounded by `MAG_LIMIT`, and zero at or
/// beyond the radius.
pub proof fn lemma_smooth_bounds(d: int, r: int)
    requires
        0 <= d,
        0 < r <= RADIUS_LIMIT,
    ensures
        0 <= smooth_spec(d, r) <= MAG_LIMIT,
        d >= r ==> smooth_spec(d, r) == 0,
{
    let value = if r * r - d * d >= 0 {
        r * r - d * d
    } else {
        0
    };
    let r2 = r * r;
    let r8 = r2 * r2 * r2 * r2;
    let coeff = 2000 * SCALE * SCALE * SCALE * PI_DEN;
    let num = coeff * value * value * value;
    let den = PI_NUM * r8;
    assert(1 <= r2 && r8 >= 1 && den >= PI_NUM && 0 <= value <= r2) by (nonlinear_arith)
        requires
            0 < r,
            0 <= d,
            r2 == r * r,
            r8 == r2 * r2 * r2 * r2,
            den == PI_NUM * r8,
            value == (if r * r - d * d >= 0 {
                r * r - d * d
            } else {
                0
            }),
    ;
    assert(0 <= num && num <= MAG_LIMIT * den) by (nonlinear_arith)
        requires
            0 <= value <= r2,
            1 <= r2,
            r8 == r2 * r2 * r2 * r2,
            den == PI_NUM * r8,
            num == coeff * value * value * value,
            coeff == 2000 * SCALE * SCALE * SCALE * PI_DEN,
    ;
    vstd::arithmetic::div_mod::lemma_div_pos_is_pos(num, den);
    vstd::arithmetic::div_mod::lemma_div_is_ordered(num, MAG_LIMIT * den, den);
    vstd::arithmetic::div_mod::lemma_div_by_multiple(MAG_LIMIT as int, den);
    if d >= r {
        assert(d * d >= r * r) by (nonlinear_arith)
            requires
                0 < r <= d,
        ;
        assert(value == 0);
        vstd::arithmetic::div_mod::lemma_div_of0(den);
    }
}

/// Kernel monotonicity: for a fixed radius the magnitude never grows as the
/// distance grows.
pub proof fn lemma_smooth_monotone(d1: int, d2: int, r: int)
    requires
        0 <= d1 <= d2,
        0 < r,
    ensures
        smooth_spec(d2, r) <= smooth_spec(d1, r),
{
    let value1 = if r * r - d1 * d1 >= 0 {
        r * r - d1 * d1
    } else {
        0
    };
    let value2 = if r * r - d2 * d2 >= 0 {
        r * r - d2 * d2
    } else {
        0
    };
    let r2 = r * r;
    let r8 = r2 * r2 * r2 * r2;
    let den = PI_NUM * r8;
    let coeff = 2000 * SCALE * SCALE * SCALE * PI_DEN;
    assert(d1 * d1 <= d2 * d2) by (nonlinear_arith)
        requires
            0 <= d1 <= d2,
    ;
    assert(0 <= value2 <= value1);
    assert(coeff * value2 * value2 * value2 <= coeff * value1 * value1 * value1)
        by (nonlinear_arith)
        requires
            0 <= value2 <= value1,
            coeff == 2000 * SCALE * SCALE * SCALE * PI_DEN,
    ;
    assert(den > 0) by (nonlinear_arith)
        requires
            0 < r,
            r2 == r * r,
            r8 == r2 * r2 * r2 * r2,
            den == PI_NUM * r8,
    ;
    vstd::arithmetic::div_mod::lemma_div_is_ordered(
        coeff * value2 * value2 * value2,
        coeff * value1 * value1 * value1,
        den,
    );
}

/// Executable smoothing kernel.
pub fn smooth(d: i64, r: i64) -> (m: i64)
    requires
        0 <= d,
        0 < r <= RADIUS_LIMIT,
    ensures
        m == smooth_spec(d as int, r as int),
        0 <= m <= MAG_LIMIT,
        d >= r ==> m == 0,
{
    proof {
        lemma_smooth_bounds(d as int, r as int);
    }
    let du = d as u128;
    let ru = r as u128;
    proof {
        assert(du * du < u128::MAX && ru * ru <= RADIUS_LIMIT * RADIUS_LIMIT && 1 <= ru * ru)
            by (nonlinear_arith)
            requires
                0 <= du <= i64::MAX as u128,
                0 < ru <= RADIUS_LIMIT as u128,
        ;
    }
    let d2 = du * du;
    let r2 = ru * ru;
    if d2 >= r2 {
        proof {
            let value = if (r as int) * (r as int) - (d as int) * (d as int) >= 0 {
                (r as int) * (r as int) - (d as int) * (d as int)
            } else {
                0
            };
            assert(value == 0);
            let rr2 = (r as int) * (r as int);
            assert(PI_NUM * (rr2 * rr2 * rr2 * rr2) > 0) by (nonlinear_arith)
                requires
                    0 < r,
                    rr2 == (r as int) * (r as int),
            ;
            vstd::arithmetic::div_mod::lemma_div_of0(PI_NUM * (rr2 * rr2 * rr2 * rr2));
        }
        0
    } else {
        let value = r2 - d2;
        let coeff: u128 = 2000 * (SCALE as u128) * (SCALE as u128) * (SCALE as u128) * (
        PI_DEN as u128);
        proof {
            assert(coeff * value <= 226_000_000_000u128 * 625_000_000u128 && coeff * value * value
                <= 226_000_000_000u128 * 625_000_000u128 * 625_000_000u128 && coeff * value * value
                * value <= 226_000_000_000u128 * 625_000_000u128 * 625_000_000u128
                * 625_000_000u128) by (nonlinear_arith)
                requires
                    coeff == 226_000_000_000u128,
                    0 <= value <= 625_000_000u128,
            ;
            assert(r2 * r2 <= 625_000_000u128 * 625_000_000u128 && r2 * r2 * r2 <= 625_000_000u128
                * 625_000_000u128 * 625_000_000u128 && r2 * r2 * r2 * r2 <= 625_000_000u128
                * 625_000_000u128 * 625_000_000u128 * 625_000_000u128 && 1 <= r2 * r2 * r2 * r2)
                by (nonlinear_arith)
                requires
                    1 <= r2 <= 625_000_000u128,
            ;
        }
        let num = coeff * value * value * value;
        let r8 = r2 * r2 * r2 * r2;
        let den = (PI_NUM as u128) * r8;
        let m = num / den;
        proof {
            assert(m == smooth_spec(d as int, r as int));
        }
        m as i64
    }
}

} // verus!
