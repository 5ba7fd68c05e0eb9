//! Fixed-point arithmetic base.
//!
//! Every world quantity is stored as an `i64` counting 1/65536ths of a world
//! unit (the scale `SCALE`).  This module provides the two primitive
//! operations the geometry layer is built on — division rounding toward
//! zero and the integer square root — together with the arithmetic facts
//! about them that the rest of the crate uses.

use vstd::arithmetic::div_mod::*;
use vstd::arithmetic::mul::*;
use vstd::prelude::*;

verus! {

/// Raw units per world unit: every coordinate, distance and colour channel
/// is a signed count of 1/65536ths.
pub const SCALE: i64 = 65536;

/// `SCALE * SCALE`: the raw value of the exact dot product of two
/// exactly-unit vectors.
pub const SCALE_SQ: i64 = 4294967296;

/// Absolute value of a mathematical integer.
pub open spec fn abs_i(a: int) -> int {
    if a >= 0 {
        a
    } else {
        -a
    }
}

/// Division rounding toward zero (the rounding used throughout the crate),
/// defined for positive divisors.
pub open spec fn tdiv(a: int, d: int) -> int {
    if a >= 0 {
        a / d
    } else {
        -((-a) / d)
    }
}

/// Floor of the square root of a non-negative integer (0 below 0).
pub open spec fn sqrt_floor(n: int) -> int
    decreases n,
{
    if n <= 0 {
        0
    } else {
        let s: int = sqrt_floor(n - 1);
        if (s + 1) * (s + 1) <= n {
            s + 1
        } else {
            s
        }
    }
}

/// `sqrt_floor(n)` really is the floor of the square root: it is the unique
/// non-negative integer whose square is at most `n` while the next square
/// exceeds `n`.
pub proof fn lemma_sqrt_floor(n: int)
    ensures
        0 <= sqrt_floor(n),
        n >= 0 ==> sqrt_floor(n) * sqrt_floor(n) <= n,
        n >= 0 ==> n < (sqrt_floor(n) + 1) * (sqrt_floor(n) + 1),
    decreases n,
{
    if n > 0 {
        lemma_sqrt_floor(n - 1);
        let s: int = sqrt_floor(n - 1);
        if (s + 1) * (s + 1) <= n {
            assert(n < (s + 2) * (s + 2)) by (nonlinear_arith)
                requires
                    n - 1 < (s + 1) * (s + 1),
                    s >= 0,
            ;
        }
    }
}

/// Any integer `m` with `m * m <= n < (m + 1) * (m + 1)` equals `sqrt_floor(n)`.
pub proof fn lemma_sqrt_unique(n: int, m: int)
    requires
        0 <= m,
        m * m <= n,
        n < (m + 1) * (m + 1),
    ensures
        m == sqrt_floor(n),
{
    lemma_sqrt_floor(n);
    let s: int = sqrt_floor(n);
    if m < s {
        assert((m + 1) * (m + 1) <= s * s) by (nonlinear_arith)
            requires
                0 <= m,
                m + 1 <= s,
        ;
    }
    if m > s {
        assert((s + 1) * (s + 1) <= m * m) by (nonlinear_arith)
            requires
                0 <= s,
                s + 1 <= m,
        ;
    }
}

/// Basic facts about truncating division by a positive divisor: the sign of
/// the quotient follows the dividend and the remainder is below the divisor.
pub proof fn lemma_tdiv(a: int, d: int)
    requires
        d > 0,
    ensures
        abs_i(tdiv(a, d)) == abs_i(a) / d,
        d * abs_i(tdiv(a, d)) <= abs_i(a),
        abs_i(a) < d * (abs_i(tdiv(a, d)) + 1),
        a >= 0 ==> tdiv(a, d) >= 0,
        a <= 0 ==> tdiv(a, d) <= 0,
{
    let b: int = abs_i(a);
    lemma_div_pos_is_pos(b, d);
    lemma_fundamental_div_mod(b, d);
    lemma_mod_division_less_than_divisor(b, d);
    assert(b / d * d == d * (b / d)) by (nonlinear_arith);
    assert(d * (b / d + 1) == d * (b / d) + d) by (nonlinear_arith);
}

/// The exact division identity behind `tdiv`: the quotient times the divisor
/// differs from the dividend by a remainder below the divisor, on the
/// dividend's side of zero.
pub proof fn lemma_tdiv_mul_range(a: int, d: int)
    requires
        d > 0,
    ensures
        abs_i(a - d * tdiv(a, d)) < d,
        (a - d * tdiv(a, d)) * a >= 0,
{
    lemma_tdiv(a, d);
    let q: int = tdiv(a, d);
    let b: int = abs_i(a);
    assert(d * abs_i(q) <= b && b < d * (abs_i(q) + 1));
    assert(d * (abs_i(q) + 1) == d * abs_i(q) + d) by (nonlinear_arith);
    if a >= 0 {
        assert(d * q == d * abs_i(q));
    } else {
        assert(d * q == -(d * abs_i(q))) by (nonlinear_arith)
            requires
                q <= 0,
                abs_i(q) == -q,
        ;
        assert((a - d * q) * a >= 0) by (nonlinear_arith)
            requires
                a < 0,
                a - d * q <= 0,
        ;
    }
}

/// Truncating division of an `i128` by a positive divisor.
pub fn tdiv_i128(a: i128, d: i128) -> (q: i128)
    requires
        0 < d,
        i128::MIN < a,
    ensures
        q == tdiv(a as int, d as int),
{
    proof {
        lemma_tdiv(a as int, d as int);
    }
    if a >= 0 {
        ((a as u128) / (d as u128)) as i128
    } else {
        let n: u128 = (-a) as u128;
        proof {
            lemma_div_is_ordered_by_denominator(n as int, 1, d as int);
            lemma_div_basics(n as int);
        }
        -((n / (d as u128)) as i128)
    }
}

/// Integer square root of a `u128` (below `2^112`), by bisection.
pub fn isqrt_u128(x: u128) -> (r: u128)
    requires
        x < 0x1_0000_0000_0000_0000_0000_0000_0000,
    ensures
        r == sqrt_floor(x as int),
        r * r <= x,
        x < (r + 1) * (r + 1),
{
    let mut lo: u128 = 0;
    let mut hi: u128 = 0x100_0000_0000_0000;
    proof {
        assert((0x100_0000_0000_0000 as int) * (0x100_0000_0000_0000 as int)
            == 0x1_0000_0000_0000_0000_0000_0000_0000);
    }
    while lo + 1 < hi
        invariant
            lo < hi,
            hi <= 0x100_0000_0000_0000,
            lo * lo <= x,
            x < hi * hi,
        decreases hi - lo,
    {
        let mid: u128 = lo + (hi - lo) / 2;
        assert(lo < mid && mid < hi);
        proof {
            assert(mid * mid <= 0x1_0000_0000_0000_0000_0000_0000_0000) by (nonlinear_arith)
                requires
                    mid <= 0x100_0000_0000_0000,
            ;
        }
        if mid * mid <= x {
            lo = mid;
        } else {
            hi = mid;
        }
    }
    proof {
        assert((lo + 1) * (lo + 1) >= hi * hi) by (nonlinear_arith)
            requires
                lo + 1 >= hi,
                hi >= 1,
        ;
        lemma_sqrt_unique(x as int, lo as int);
    }
    lo
}

/// `|a * b| <= ba * bb` whenever `|a| <= ba` and `|b| <= bb`.
pub proof fn lemma_abs_mul_bound(a: int, b: int, ba: int, bb: int)
    requires
        abs_i(a) <= ba,
        abs_i(b) <= bb,
    ensures
        abs_i(a * b) <= ba * bb,
{
    assert(abs_i(a * b) <= ba * bb) by (nonlinear_arith)
        requires
            abs_i(a) <= ba,
            abs_i(b) <= bb,
            abs_i(a) == if a >= 0 { a } else { -a },
            abs_i(b) == if b >= 0 { b } else { -b },
            abs_i(a * b) == if a * b >= 0 { a * b } else { -(a * b) },
    ;
}

} // verus!
