//! Fixed-point scalar arithmetic for the simulation core.
//!
//! A raw `i64` value `v` stands for the real number `v / SCALE`. Products and
//! quotients truncate toward zero, as stated by `div_trunc`.

use vstd::prelude::*;

verus! {

/// Number of raw units per world unit.
pub const SCALE: i64 = 100;

/// Largest magnitude accepted for a position or bound coordinate.
pub const POS_LIMIT: i64 = 1_000_000_000_000;

/// Largest timestep accepted by the updater.
pub const H_LIMIT: i64 = 1_000_000;

/// Largest interaction radius accepted in a configuration.
pub const RADIUS_LIMIT: i64 = 25_000;

/// Largest grid dimension accepted in a configuration.
pub const GRID_DIM_LIMIT: usize = 30_000;

/// Largest neighbor-list length accepted for a single grid cell.
pub const CELL_LIMIT: usize = 1_000_000_000;

/// Every kernel magnitude is bounded by this value.
pub const MAG_LIMIT: i64 = 1_000_000_000;

/// Quotient of `a` by `b`, truncated toward zero (the semantics of machine
/// integer division). For `b > 0` this agrees with Euclidean division on
/// non-negative `a` and mirrors it on negative `a`.
pub open spec fn div_trunc(a: int, b: int) -> int {
    if a >= 0 {
        a / b
    } else {
        -((-a) / b)
    }
}

/// Floor of the square root, defined by counting up.
pub open spec fn sqrt_floor(n: int) -> int
    decreases n,
{
    if n <= 0 {
        0
    } else {
        let r = sqrt_floor(n - 1);
        if (r + 1) * (r + 1) <= n {
            r + 1
        } else {
            r
        }
    }
}

/// `sqrt_floor(n)` really is the floor of the square root of `n`.
pub proof fn lemma_sqrt_floor_bounds(n: int)
    requires
        n >= 0,
    ensures
        sqrt_floor(n) >= 0,
        sqrt_floor(n) * sqrt_floor(n) <= n,
        n < (sqrt_floor(n) + 1) * (sqrt_floor(n) + 1),
    decreases n,
{
    if n == 0 {
    } else {
        lemma_sqrt_floor_bounds(n - 1);
        let r = sqrt_floor(n - 1);
        if (r + 1) * (r + 1) <= n {
            assert(n <= (r + 1) * (r + 1)) by {
                assert(n - 1 < (r + 1) * (r + 1));
            }
            assert((r + 1) * (r + 1) < (r + 2) * (r + 2)) by (nonlinear_arith)
                requires
                    r >= 0,
            ;
        } else {
        }
    }
}

/// Any integer sitting between consecutive squares is the square-root floor.
pub proof fn lemma_sqrt_floor_unique(n: int, r: int)
    requires
        n >= 0,
        r >= 0,
        r * r <= n,
        n < (r + 1) * (r + 1),
    ensures
        r == sqrt_floor(n),
{
    lemma_sqrt_floor_bounds(n);
    let s = sqrt_floor(n);
    if r < s {
        assert((r + 1) * (r + 1) <= s * s) by (nonlinear_arith)
            requires
                0 <= r,
                r + 1 <= s,
            ;
    }
    if s < r {
        assert((s + 1) * (s + 1) <= r * r) by (nonlinear_arith)
            requires
                0 <= s,
                s + 1 <= r,
            ;
    }
}

/// The square-root floor is monotone.
pub proof fn lemma_sqrt_floor_monotone(m: int, n: int)
    requires
        0 <= m <= n,
    ensures
        sqrt_floor(m) <= sqrt_floor(n),
{
    lemma_sqrt_floor_bounds(m);
    lemma_sqrt_floor_bounds(n);
    let a = sqrt_floor(m);
    let b = sqrt_floor(n);
    if b < a {
        assert((b + 1) * (b + 1) <= a * a) by (nonlinear_arith)
            requires
                0 <= b,
                b + 1 <= a,
            ;
    }
}

/// The square-root floor of a perfect square is exact.
pub proof fn lemma_sqrt_floor_square(a: int)
    requires
        a >= 0,
    ensures
        sqrt_floor(a * a) == a,
{
    assert(a * a >= 0 && a * a < (a + 1) * (a + 1)) by (nonlinear_arith)
        requires
            a >= 0,
        ;
    lemma_sqrt_floor_unique(a * a, a);
}

/// A truncating quotient is bounded by any bound on the exact quotient.
pub proof fn lemma_div_trunc_bound(a: int, b: int, c: int)
    requires
        b > 0,
        c >= 0,
        -(c * b) <= a <= c * b,
    ensures
        -c <= div_trunc(a, b) <= c,
{
    if a >= 0 {
        vstd::arithmetic::div_mod::lemma_div_pos_is_pos(a, b);
        vstd::arithmetic::div_mod::lemma_div_is_ordered(a, c * b, b);
        vstd::arithmetic::div_mod::lemma_div_by_multiple(c, b);
    } else {
        vstd::arithmetic::div_mod::lemma_div_pos_is_pos(-a, b);
        vstd::arithmetic::div_mod::lemma_div_is_ordered(-a, c * b, b);
        vstd::arithmetic::div_mod::lemma_div_by_multiple(c, b);
    }
}

/// Binary-search integer square root.
pub fn isqrt(n: u128) -> (r: u128)
    ensures
        r == sqrt_floor(n as int),
        r * r <= n,
{
    let mut lo: u128 = 0;
    let mut hi: u128 = 0x1_0000_0000_0000_0000;
    proof {
        assert((n as int) < (hi as int) * (hi as int)) by (nonlinear_arith)
            requires
                n <= u128::MAX,
                hi == 0x1_0000_0000_0000_0000u128,
            ;
    }
    while lo + 1 < hi
        invariant
            0 <= lo < hi <= 0x1_0000_0000_0000_0000u128,
            (lo as int) * (lo as int) <= n as int,
            (n as int) < (hi as int) * (hi as int),
        decreases hi - lo,
    {
        let mid: u128 = lo + (hi - lo) / 2;
        proof {
            assert((mid as int) * (mid as int) <= (0xffff_ffff_ffff_ffffu128 as int)
                * (0xffff_ffff_ffff_ffffu128 as int)) by (nonlinear_arith)
                requires
                    0 <= (mid as int) <= 0xffff_ffff_ffff_ffffu128 as int,
            ;
        }
        if mid * mid <= n {
            lo = mid;
        } else {
            hi = mid;
        }
    }
    proof {
        lemma_sqrt_floor_unique(n as int, lo as int);
    }
    lo
}

/// Truncating division of machine integers, for a positive divisor.
pub fn div_trunc_i64(a: i64, b: i64) -> (q: i64)
    requires
        b > 0,
        a > i64::MIN,
    ensures
        q == div_trunc(a as int, b as int),
{
    if a >= 0 {
        proof {
            vstd::arithmetic::div_mod::lemma_div_nonincreasing(a as int, b as int);
        }
        let q: u64 = (a as u64) / (b as u64);
        q as i64
    } else {
        proof {
            vstd::arithmetic::div_mod::lemma_div_nonincreasing((-a) as int, b as int);
        }
        let m: u64 = ((-a) as u64) / (b as u64);
        -(m as i64)
    }
}

/// Fixed-point product: `a * b / SCALE`, truncated toward zero.
pub fn fp_mul(a: i64, b: i64) -> (r: i64)
    requires
        -(i64::MAX as int) * (SCALE as int) <= (a as int) * (b as int) <= (i64::MAX as int) * (
        SCALE as int),
    ensures
        r == div_trunc((a as int) * (b as int), SCALE as int),
{
    proof {
        assert(-(0x1_0000_0000_0000_0000i128 as int) * (0x1_0000_0000_0000_0000i128 as int) <= (
        a as int) * (b as int) <= (0x1_0000_0000_0000_0000i128 as int) * (
        0x1_0000_0000_0000_0000i128 as int)) by (nonlinear_arith)
            requires
                i64::MIN <= a <= i64::MAX,
                i64::MIN <= b <= i64::MAX,
        ;
    }
    let p: i128 = (a as i128) * (b as i128);
    if p >= 0 {
        proof {
            vstd::arithmetic::div_mod::lemma_div_is_ordered(
                p as int,
                (i64::MAX as int) * (SCALE as int),
                SCALE as int,
            );
        }
        let q: u128 = (p as u128) / (SCALE as u128);
        q as i64
    } else {
        proof {
            vstd::arithmetic::div_mod::lemma_div_is_ordered(
                (-p) as int,
                (i64::MAX as int) * (SCALE as int),
                SCALE as int,
            );
        }
        let m: u128 = ((-p) as u128) / (SCALE as u128);
        -(m as i64)
    }
}

} // verus!
