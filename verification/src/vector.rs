//! Vectors and the geometry primitives on them.
//!
//! A `Vector` stores three fixed-point coordinates (see `fixed::SCALE`).
//! The ghost type `Vec3` carries the same triple as unbounded integers, and
//! every executable operation's contract states the exact integer triple it
//! returns.  On top of the exact contracts this module proves the geometric
//! facts the tracer needs: a normalised vector has squared norm within
//! 1/10000 of one, the cross product is orthogonal to its factors, and
//! `make_orthogonal_frame` returns two unit vectors orthogonal (within
//! tolerance) to each other and to its argument.

use crate::fixed::{
    abs_i, isqrt_u128, lemma_abs_mul_bound, lemma_sqrt_floor, lemma_tdiv, sqrt_floor, tdiv,
    tdiv_i128, SCALE,
};
use vstd::arithmetic::div_mod::*;
use vstd::arithmetic::mul::*;
use vstd::prelude::*;

verus! {

/// Bound on the coordinates accepted by the general vector operations
/// (2^38 raw, about four million world units): products of two such
/// coordinates stay well inside `i128` and scaled results inside `i64`.
pub const GEN_MAX: i64 = 274877906944;

/// Smallest raw squared norm (2^30, half a world unit of length) that
/// `normalised` accepts; below it the quantisation error of the division
/// could push the result outside the unit tolerance.
pub const MIN_NORM2: i64 = 1073741824;

/// `0.9999 * SCALE * SCALE`, rounded up: lower edge of the squared-norm
/// range of a unit vector.
pub const UNIT_NORM2_MIN: i64 = 4294537800;

/// `1.0001 * SCALE * SCALE`, rounded down: upper edge of the squared-norm
/// range of a unit vector.
pub const UNIT_NORM2_MAX: i64 = 4295396792;

/// Componentwise bound implied by `is_unit` (just above `SCALE`).
pub const UNIT_ABS_MAX: i64 = 65540;

/// Bound on `|x| + |y| + |z|` implied by `is_unit` (just above `sqrt(3) * SCALE`).
pub const UNIT_SUM_ABS_MAX: i64 = 113528;

/// `0.0001 * SCALE * SCALE`, rounded down: two vectors whose raw dot product
/// is within this tolerance count as orthogonal (the tolerance the frame
/// construction works to).
pub const FRAME_DOT_TOL: i64 = 429496;

/// Componentwise bound accepted by `unit_from_wide` (2^54).
pub const WIDE_MAX: i128 = 18014398509481984;

/// A vector as a triple of unbounded integers: the mathematical model that
/// all contracts speak about.
pub ghost struct Vec3 {
    pub x: int,
    pub y: int,
    pub z: int,
}

/// A point or direction in space, in fixed-point coordinates.
#[derive(Clone, Copy, Debug, PartialEq, Eq, Structural)]
pub struct Vector {
    pub x: i64,
    pub y: i64,
    pub z: i64,
}

impl View for Vector {
    type V = Vec3;

    open spec fn view(&self) -> Vec3 {
        Vec3 { x: self.x as int, y: self.y as int, z: self.z as int }
    }
}

/// All three components within `b` in absolute value.
pub open spec fn v_bounded(v: Vec3, b: int) -> bool {
    abs_i(v.x) <= b && abs_i(v.y) <= b && abs_i(v.z) <= b
}

/// `|x| + |y| + |z|`.
pub open spec fn sum_abs(v: Vec3) -> int {
    abs_i(v.x) + abs_i(v.y) + abs_i(v.z)
}

pub open spec fn v_add(a: Vec3, b: Vec3) -> Vec3 {
    Vec3 { x: a.x + b.x, y: a.y + b.y, z: a.z + b.z }
}

pub open spec fn v_sub(a: Vec3, b: Vec3) -> Vec3 {
    Vec3 { x: a.x - b.x, y: a.y - b.y, z: a.z - b.z }
}

pub open spec fn v_neg(a: Vec3) -> Vec3 {
    Vec3 { x: -a.x, y: -a.y, z: -a.z }
}

/// Exact componentwise scaling by an integer factor.
pub open spec fn v_scale_int(a: Vec3, k: int) -> Vec3 {
    Vec3 { x: a.x * k, y: a.y * k, z: a.z * k }
}

/// Componentwise truncating division by a positive divisor.
pub open spec fn v_tdiv(a: Vec3, d: int) -> Vec3 {
    Vec3 { x: tdiv(a.x, d), y: tdiv(a.y, d), z: tdiv(a.z, d) }
}

/// Exact dot product of two integer triples (raw scale `SCALE * SCALE`).
pub open spec fn v_dot(a: Vec3, b: Vec3) -> int {
    a.x * b.x + a.y * b.y + a.z * b.z
}

/// Exact cross product of two integer triples (raw scale `SCALE * SCALE`).
pub open spec fn v_cross(a: Vec3, b: Vec3) -> Vec3 {
    Vec3 {
        x: a.y * b.z - a.z * b.y,
        y: a.z * b.x - a.x * b.z,
        z: a.x * b.y - a.y * b.x,
    }
}

/// Exact squared norm (raw scale `SCALE * SCALE`).
pub open spec fn norm2_v(a: Vec3) -> int {
    v_dot(a, a)
}

/// Fixed-point scaling: scale exactly, then round each component toward zero.
pub open spec fn scale_fixed(a: Vec3, k: int) -> Vec3 {
    v_tdiv(v_scale_int(a, k), SCALE as int)
}

/// Fixed-point dot product: the exact product sum rounded toward zero.
pub open spec fn dot_fixed(a: Vec3, b: Vec3) -> int {
    tdiv(v_dot(a, b), SCALE as int)
}

/// Fixed-point cross product: the exact cross product rounded toward zero.
pub open spec fn cross_fixed(a: Vec3, b: Vec3) -> Vec3 {
    v_tdiv(v_cross(a, b), SCALE as int)
}

/// The normalisation of `v`: scale by `SCALE`, divide by the rounded-down
/// norm, rounding each component toward zero.
pub open spec fn normalise_spec(v: Vec3) -> Vec3 {
    v_tdiv(v_scale_int(v, SCALE as int), sqrt_floor(norm2_v(v)))
}

/// A unit vector, to the tolerance the tracer works with everywhere:
/// squared norm within 1/10000 of `SCALE * SCALE`.
pub open spec fn is_unit(v: Vec3) -> bool {
    UNIT_NORM2_MIN <= norm2_v(v) <= UNIT_NORM2_MAX
}

impl Vector {
    /// Componentwise sum.
    pub fn add(self, other: Vector) -> (r: Vector)
        requires
            v_bounded(self@, GEN_MAX as int),
            v_bounded(other@, GEN_MAX as int),
        ensures
            r@ == v_add(self@, other@),
    {
        Vector { x: self.x + other.x, y: self.y + other.y, z: self.z + other.z }
    }

    /// Componentwise difference.
    pub fn sub(self, other: Vector) -> (r: Vector)
        requires
            v_bounded(self@, GEN_MAX as int),
            v_bounded(other@, GEN_MAX as int),
        ensures
            r@ == v_sub(self@, other@),
    {
        Vector { x: self.x - other.x, y: self.y - other.y, z: self.z - other.z }
    }

    /// Componentwise negation.
    pub fn neg(self) -> (r: Vector)
        requires
            v_bounded(self@, GEN_MAX as int),
        ensures
            r@ == v_neg(self@),
    {
        Vector { x: -self.x, y: -self.y, z: -self.z }
    }

    /// Scaling by a fixed-point factor, each component rounded toward zero.
    pub fn mul(self, scalar: i64) -> (r: Vector)
        requires
            v_bounded(self@, GEN_MAX as int),
            abs_i(scalar as int) <= GEN_MAX as int,
        ensures
            r@ == scale_fixed(self@, scalar as int),
    {
        let s: i128 = scalar as i128;
        proof {
            lemma_abs_mul_bound(self@.x, scalar as int, GEN_MAX as int, GEN_MAX as int);
            lemma_abs_mul_bound(self@.y, scalar as int, GEN_MAX as int, GEN_MAX as int);
            lemma_abs_mul_bound(self@.z, scalar as int, GEN_MAX as int, GEN_MAX as int);
            lemma_scaled_tdiv_fits(self@.x * scalar, GEN_MAX as int * GEN_MAX as int);
            lemma_scaled_tdiv_fits(self@.y * scalar, GEN_MAX as int * GEN_MAX as int);
            lemma_scaled_tdiv_fits(self@.z * scalar, GEN_MAX as int * GEN_MAX as int);
        }
        Vector {
            x: tdiv_i128((self.x as i128) * s, SCALE as i128) as i64,
            y: tdiv_i128((self.y as i128) * s, SCALE as i128) as i64,
            z: tdiv_i128((self.z as i128) * s, SCALE as i128) as i64,
        }
    }

    /// Fixed-point squared norm (the dot product of the vector with itself).
    pub fn norm2(self) -> (r: i64)
        requires
            v_bounded(self@, GEN_MAX as int),
        ensures
            r == dot_fixed(self@, self@),
    {
        dot(self, self)
    }

    /// Fixed-point norm: the rounded-down square root of the exact raw
    /// squared norm.
    pub fn norm(self) -> (r: i64)
        requires
            v_bounded(self@, GEN_MAX as int),
        ensures
            r == sqrt_floor(norm2_v(self@)),
    {
        let n2: i128 = dot_wide(self, self);
        proof {
            lemma_norm2_nonneg(self@);
            lemma_dot_wide_bound(self@, self@, GEN_MAX as int, GEN_MAX as int);
            lemma_sqrt_floor(n2 as int);
            lemma_sqrt_below(n2 as int, 0x8000_0000_0000);
        }
        isqrt_u128(n2 as u128) as i64
    }

    /// Whether the squared norm lies in the unit range, as the estimator's
    /// contracts demand of directions and normals.
    pub fn is_normal(self) -> (r: bool)
        requires
            v_bounded(self@, GEN_MAX as int),
        ensures
            r == is_unit(self@),
    {
        let n2: i128 = dot_wide(self, self);
        UNIT_NORM2_MIN as i128 <= n2 && n2 <= UNIT_NORM2_MAX as i128
    }

    /// The normalisation of `self`: a unit vector pointing the same way.
    /// Undefined for vectors shorter than half a unit, which the caller must
    /// exclude.
    pub fn normalised(self) -> (r: Vector)
        requires
            v_bounded(self@, GEN_MAX as int),
            norm2_v(self@) >= MIN_NORM2 as int,
        ensures
            r@ == normalise_spec(self@),
            is_unit(r@),
            v_bounded(r@, SCALE as int),
    {
        unit_from_wide(self.x as i128, self.y as i128, self.z as i128)
    }
}

/// Fixed-point dot product of two vectors.
pub fn dot(v1: Vector, v2: Vector) -> (r: i64)
    requires
        v_bounded(v1@, GEN_MAX as int),
        v_bounded(v2@, GEN_MAX as int),
    ensures
        r == dot_fixed(v1@, v2@),
{
    let p: i128 = dot_wide(v1, v2);
    proof {
        lemma_dot_wide_bound(v1@, v2@, GEN_MAX as int, GEN_MAX as int);
        lemma_scaled_tdiv_fits(p as int, 3 * (GEN_MAX as int * GEN_MAX as int));
    }
    tdiv_i128(p, SCALE as i128) as i64
}

/// Exact raw dot product of two vectors, as an `i128`.
pub fn dot_wide(v1: Vector, v2: Vector) -> (r: i128)
    requires
        v_bounded(v1@, GEN_MAX as int),
        v_bounded(v2@, GEN_MAX as int),
    ensures
        r == v_dot(v1@, v2@),
{
    proof {
        lemma_abs_mul_bound(v1@.x, v2@.x, GEN_MAX as int, GEN_MAX as int);
        lemma_abs_mul_bound(v1@.y, v2@.y, GEN_MAX as int, GEN_MAX as int);
        lemma_abs_mul_bound(v1@.z, v2@.z, GEN_MAX as int, GEN_MAX as int);
    }
    (v1.x as i128) * (v2.x as i128) + (v1.y as i128) * (v2.y as i128) + (v1.z as i128) * (v2.z
        as i128)
}

/// Fixed-point cross product of two vectors.
pub fn cross(v1: Vector, v2: Vector) -> (r: Vector)
    requires
        v_bounded(v1@, GEN_MAX as int),
        v_bounded(v2@, GEN_MAX as int),
    ensures
        r@ == cross_fixed(v1@, v2@),
{
    proof {
        lemma_abs_mul_bound(v1@.y, v2@.z, GEN_MAX as int, GEN_MAX as int);
        lemma_abs_mul_bound(v1@.z, v2@.y, GEN_MAX as int, GEN_MAX as int);
        lemma_abs_mul_bound(v1@.z, v2@.x, GEN_MAX as int, GEN_MAX as int);
        lemma_abs_mul_bound(v1@.x, v2@.z, GEN_MAX as int, GEN_MAX as int);
        lemma_abs_mul_bound(v1@.x, v2@.y, GEN_MAX as int, GEN_MAX as int);
        lemma_abs_mul_bound(v1@.y, v2@.x, GEN_MAX as int, GEN_MAX as int);
        lemma_scaled_tdiv_fits(
            v1@.y * v2@.z - v1@.z * v2@.y,
            2 * (GEN_MAX as int * GEN_MAX as int),
        );
        lemma_scaled_tdiv_fits(
            v1@.z * v2@.x - v1@.x * v2@.z,
            2 * (GEN_MAX as int * GEN_MAX as int),
        );
        lemma_scaled_tdiv_fits(
            v1@.x * v2@.y - v1@.y * v2@.x,
            2 * (GEN_MAX as int * GEN_MAX as int),
        );
    }
    Vector {
        x: tdiv_i128(
            (v1.y as i128) * (v2.z as i128) - (v1.z as i128) * (v2.y as i128),
            SCALE as i128,
        ) as i64,
        y: tdiv_i128(
            (v1.z as i128) * (v2.x as i128) - (v1.x as i128) * (v2.z as i128),
            SCALE as i128,
        ) as i64,
        z: tdiv_i128(
            (v1.x as i128) * (v2.y as i128) - (v1.y as i128) * (v2.x as i128),
            SCALE as i128,
        ) as i64,
    }
}

/// The normalisation of the integer triple `(wx, wy, wz)`: used both by
/// `normalised` and by the samplers, which build their directions as wide
/// combinations of frame vectors and normalise once.
pub fn unit_from_wide(wx: i128, wy: i128, wz: i128) -> (r: Vector)
    requires
        abs_i(wx as int) <= WIDE_MAX as int,
        abs_i(wy as int) <= WIDE_MAX as int,
        abs_i(wz as int) <= WIDE_MAX as int,
        norm2_v(Vec3 { x: wx as int, y: wy as int, z: wz as int }) >= MIN_NORM2 as int,
    ensures
        r@ == normalise_spec(Vec3 { x: wx as int, y: wy as int, z: wz as int }),
        is_unit(r@),
        v_bounded(r@, SCALE as int),
{
    let ghost w = Vec3 { x: wx as int, y: wy as int, z: wz as int };
    proof {
        lemma_abs_mul_bound(wx as int, wx as int, WIDE_MAX as int, WIDE_MAX as int);
        lemma_abs_mul_bound(wy as int, wy as int, WIDE_MAX as int, WIDE_MAX as int);
        lemma_abs_mul_bound(wz as int, wz as int, WIDE_MAX as int, WIDE_MAX as int);
        lemma_norm2_nonneg(w);
    }
    let n2: i128 = wx * wx + wy * wy + wz * wz;
    proof {
        lemma_sqrt_floor(n2 as int);
        lemma_sqrt_below(n2 as int, 0x100_0000_0000_0000);
    }
    let m: u128 = isqrt_u128(n2 as u128);
    proof {
        lemma_normalise_unit(w);
        lemma_normalise_fits(w);
        lemma_abs_mul_bound(wx as int, SCALE as int, WIDE_MAX as int, SCALE as int);
        lemma_abs_mul_bound(wy as int, SCALE as int, WIDE_MAX as int, SCALE as int);
        lemma_abs_mul_bound(wz as int, SCALE as int, WIDE_MAX as int, SCALE as int);
    }
    Vector {
        x: tdiv_i128(wx * (SCALE as i128), m as i128) as i64,
        y: tdiv_i128(wy * (SCALE as i128), m as i128) as i64,
        z: tdiv_i128(wz * (SCALE as i128), m as i128) as i64,
    }
}

/// The exact dot product of two triples bounded by `ba` and `bb` is bounded
/// by `3 * ba * bb`.
pub proof fn lemma_dot_wide_bound(a: Vec3, b: Vec3, ba: int, bb: int)
    requires
        v_bounded(a, ba),
        v_bounded(b, bb),
    ensures
        abs_i(v_dot(a, b)) <= 3 * (ba * bb),
{
    lemma_abs_mul_bound(a.x, b.x, ba, bb);
    lemma_abs_mul_bound(a.y, b.y, ba, bb);
    lemma_abs_mul_bound(a.z, b.z, ba, bb);
}

/// A squared norm is never negative.
pub proof fn lemma_norm2_nonneg(a: Vec3)
    ensures
        norm2_v(a) >= 0,
        a.x * a.x >= 0,
        a.y * a.y >= 0,
        a.z * a.z >= 0,
        a.x * a.x <= norm2_v(a),
        a.y * a.y <= norm2_v(a),
        a.z * a.z <= norm2_v(a),
{
    assert(a.x * a.x >= 0) by (nonlinear_arith);
    assert(a.y * a.y >= 0) by (nonlinear_arith);
    assert(a.z * a.z >= 0) by (nonlinear_arith);
}

/// If `n < b * b` then `sqrt_floor(n) < b`.
pub proof fn lemma_sqrt_below(n: int, b: int)
    requires
        n < b * b,
        b > 0,
    ensures
        sqrt_floor(n) < b,
{
    lemma_sqrt_floor(n);
    if n >= 0 && sqrt_floor(n) >= b {
        assert(b * b <= sqrt_floor(n) * sqrt_floor(n)) by (nonlinear_arith)
            requires
                0 < b <= sqrt_floor(n),
        ;
    }
}

/// A result of `tdiv(.., SCALE)` on a value bounded by `bound` fits an `i64`
/// whenever `bound / SCALE` does.
pub proof fn lemma_scaled_tdiv_fits(a: int, bound: int)
    requires
        abs_i(a) <= bound,
        bound <= 0x7FFF_FFFF_FFFF_FFFF * (SCALE as int),
    ensures
        abs_i(tdiv(a, SCALE as int)) <= bound / (SCALE as int),
        abs_i(tdiv(a, SCALE as int)) <= 0x7FFF_FFFF_FFFF_FFFF,
{
    lemma_tdiv(a, SCALE as int);
    lemma_div_is_ordered(abs_i(a), bound, SCALE as int);
    lemma_div_multiples_vanish(0x7FFF_FFFF_FFFF_FFFF, SCALE as int);
    lemma_div_is_ordered(bound, 0x7FFF_FFFF_FFFF_FFFF * (SCALE as int), SCALE as int);
    assert((SCALE as int) * 0x7FFF_FFFF_FFFF_FFFF == 0x7FFF_FFFF_FFFF_FFFF * (SCALE as int))
        by (nonlinear_arith);
}


/// The law `normalised` is built on: dividing a
/// vector of squared norm at least `MIN_NORM2` by its rounded-down norm
/// yields a vector whose squared norm is within 1/10000 of `SCALE * SCALE`.
pub proof fn lemma_normalise_unit(v: Vec3)
    requires
        norm2_v(v) >= MIN_NORM2 as int,
    ensures
        is_unit(normalise_spec(v)),
        v_bounded(normalise_spec(v), SCALE as int),
        sqrt_floor(norm2_v(v)) >= 32768,
{
    let n: int = norm2_v(v);
    let m: int = sqrt_floor(n);
    let s: int = SCALE as int;
    lemma_sqrt_floor(n);
    assert(m >= 32768) by (nonlinear_arith)
        requires
            n >= 1073741824,
            n < (m + 1) * (m + 1),
            m >= 0,
    ;
    lemma_norm2_nonneg(v);
    assert(abs_i(v.x) <= m) by (nonlinear_arith)
        requires
            v.x * v.x <= n,
            n < (m + 1) * (m + 1),
            m >= 0,
            abs_i(v.x) == if v.x >= 0 { v.x } else { -v.x },
    ;
    assert(abs_i(v.y) <= m) by (nonlinear_arith)
        requires
            v.y * v.y <= n,
            n < (m + 1) * (m + 1),
            m >= 0,
            abs_i(v.y) == if v.y >= 0 { v.y } else { -v.y },
    ;
    assert(abs_i(v.z) <= m) by (nonlinear_arith)
        requires
            v.z * v.z <= n,
            n < (m + 1) * (m + 1),
            m >= 0,
            abs_i(v.z) == if v.z >= 0 { v.z } else { -v.z },
    ;
    let q: Vec3 = normalise_spec(v);
    let qx: int = tdiv(v.x * s, m);
    let qy: int = tdiv(v.y * s, m);
    let qz: int = tdiv(v.z * s, m);
    assert(q.x == qx && q.y == qy && q.z == qz);
    lemma_normalise_comp(v.x, m, s);
    lemma_normalise_comp(v.y, m, s);
    lemma_normalise_comp(v.z, m, s);
    let mm: int = m * m;
    let ss: int = s * s;
    let ax: int = qx * qx;
    let ay: int = qy * qy;
    let az: int = qz * qz;
    let bx: int = v.x * v.x;
    let by: int = v.y * v.y;
    let bz: int = v.z * v.z;
    let qq: int = norm2_v(q);
    lemma_norm2_nonneg(q);
    assert(qq == ax + ay + az);
    assert(n == bx + by + bz);
    // upper bound: qq * mm <= n * ss <= (mm + 2m) * ss, so qq <= ss + 2 ss / m.
    assert(qq * mm == ax * mm + ay * mm + az * mm) by (nonlinear_arith)
        requires
            qq == ax + ay + az,
    ;
    assert(n * ss == bx * ss + by * ss + bz * ss) by (nonlinear_arith)
        requires
            n == bx + by + bz,
    ;
    assert(qq * mm <= n * ss);
    assert(n <= mm + 2 * m) by (nonlinear_arith)
        requires
            n < (m + 1) * (m + 1),
            mm == m * m,
    ;
    assert(n * ss <= (mm + 2 * m) * ss) by (nonlinear_arith)
        requires
            n <= mm + 2 * m,
            ss >= 0,
    ;
    assert((mm + 2 * m) * ss == mm * ss + 2 * (m * ss)) by (nonlinear_arith);
    let t: int = qq - ss;
    assert(t * mm == qq * mm - ss * mm) by (nonlinear_arith)
        requires
            t == qq - ss,
    ;
    assert(ss * mm == mm * ss) by (nonlinear_arith);
    assert(t * mm <= 2 * (m * ss));
    if t > 0 {
        assert(t * m <= 2 * ss) by (nonlinear_arith)
            requires
                t * (m * m) <= 2 * (m * ss),
                mm == m * m,
                t * mm <= 2 * (m * ss),
                m > 0,
        ;
        assert(t * 32768 <= t * m) by (nonlinear_arith)
            requires
                t > 0,
                m >= 32768,
        ;
        assert(ss == 4294967296);
        assert(t <= 262144);
    }
    assert(qq <= ss + 262144);
    // lower bound: n * ss < (qq + 6s + 3) * mm and n >= mm, so qq > ss - 6s - 3.
    let rx: int = ax + 2 * abs_i(qx) + 1;
    let ry: int = ay + 2 * abs_i(qy) + 1;
    let rz: int = az + 2 * abs_i(qz) + 1;
    assert(bx * ss < rx * mm && by * ss < ry * mm && bz * ss < rz * mm);
    assert((rx + ry + rz) * mm == rx * mm + ry * mm + rz * mm) by (nonlinear_arith);
    assert(n * ss < (rx + ry + rz) * mm);
    assert(rx + ry + rz <= qq + 6 * s + 3);
    assert((rx + ry + rz) * mm <= (qq + 6 * s + 3) * mm) by (nonlinear_arith)
        requires
            rx + ry + rz <= qq + 6 * s + 3,
            mm >= 0,
    ;
    assert(mm * ss <= n * ss) by (nonlinear_arith)
        requires
            mm <= n,
            ss >= 0,
    ;
    assert(mm > 0) by (nonlinear_arith)
        requires
            m >= 32768,
            mm == m * m,
    ;
    assert(ss < qq + 6 * s + 3) by (nonlinear_arith)
        requires
            mm * ss < (qq + 6 * s + 3) * mm,
            mm > 0,
    ;
    assert(qq >= ss - 6 * s - 2);
}

/// One component of the normalisation: the division bounds that
/// `lemma_normalise_unit` sums, in squared form.
proof fn lemma_normalise_comp(c: int, m: int, s: int)
    requires
        m > 0,
        s > 0,
        abs_i(c) <= m,
    ensures
        abs_i(tdiv(c * s, m)) <= s,
        (tdiv(c * s, m) * tdiv(c * s, m)) * (m * m) <= (c * c) * (s * s),
        (c * c) * (s * s) < (tdiv(c * s, m) * tdiv(c * s, m) + 2 * abs_i(tdiv(c * s, m)) + 1) * (m
            * m),
{
    lemma_tdiv(c * s, m);
    let q: int = tdiv(c * s, m);
    assert(abs_i(c * s) == abs_i(c) * s) by (nonlinear_arith)
        requires
            s > 0,
            abs_i(c) == if c >= 0 { c } else { -c },
            abs_i(c * s) == if c * s >= 0 { c * s } else { -(c * s) },
    ;
    // lemma_tdiv gives m * |q| <= |c| * s < m * (|q| + 1)
    let qa: int = abs_i(q);
    let ca: int = abs_i(c);
    assert(m * qa == qa * m && m * (qa + 1) == (qa + 1) * m) by (nonlinear_arith);
    assert(qa <= s) by (nonlinear_arith)
        requires
            qa * m <= ca * s,
            ca <= m,
            m > 0,
            s > 0,
            qa >= 0,
    ;
    assert((qa * m) * (qa * m) <= (ca * s) * (ca * s)) by (nonlinear_arith)
        requires
            0 <= qa * m,
            qa * m <= ca * s,
    ;
    assert((ca * s) * (ca * s) < ((qa + 1) * m) * ((qa + 1) * m)) by (nonlinear_arith)
        requires
            0 <= ca * s,
            ca * s < (qa + 1) * m,
    ;
    assert((qa * m) * (qa * m) == (q * q) * (m * m)) by (nonlinear_arith)
        requires
            qa == if q >= 0 { q } else { -q },
    ;
    assert((ca * s) * (ca * s) == (c * c) * (s * s)) by (nonlinear_arith)
        requires
            ca == if c >= 0 { c } else { -c },
    ;
    assert(((qa + 1) * m) * ((qa + 1) * m) == (q * q + 2 * qa + 1) * (m * m)) by (nonlinear_arith)
        requires
            qa == if q >= 0 { q } else { -q },
    ;
}

/// The components of a normalisation fit an `i64` (they are bounded by
/// `SCALE`) and the divisor is positive.
pub proof fn lemma_normalise_fits(v: Vec3)
    requires
        norm2_v(v) >= MIN_NORM2 as int,
    ensures
        abs_i(tdiv(v.x * (SCALE as int), sqrt_floor(norm2_v(v)))) <= SCALE as int,
        abs_i(tdiv(v.y * (SCALE as int), sqrt_floor(norm2_v(v)))) <= SCALE as int,
        abs_i(tdiv(v.z * (SCALE as int), sqrt_floor(norm2_v(v)))) <= SCALE as int,
        sqrt_floor(norm2_v(v)) >= 32768,
{
    lemma_normalise_unit(v);
}

/// Cross-product orthogonality, before rounding: the dot product of either
/// factor with the exact cross product is exactly zero.
pub proof fn lemma_cross_orthogonal(a: Vec3, b: Vec3)
    ensures
        v_dot(a, v_cross(a, b)) == 0,
        v_dot(b, v_cross(a, b)) == 0,
{
    assert(a.x * (a.y * b.z - a.z * b.y) + a.y * (a.z * b.x - a.x * b.z) + a.z * (a.x * b.y - a.y
        * b.x) == 0) by (nonlinear_arith);
    assert(b.x * (a.y * b.z - a.z * b.y) + b.y * (a.z * b.x - a.x * b.z) + b.z * (a.x * b.y - a.y
        * b.x) == 0) by (nonlinear_arith);
}

/// Lagrange's identity: the squared norm of a cross product.
pub proof fn lemma_lagrange(a: Vec3, b: Vec3)
    ensures
        norm2_v(v_cross(a, b)) == norm2_v(a) * norm2_v(b) - v_dot(a, b) * v_dot(a, b),
{
    let qxx: int = a.x * a.x;
    let qyy: int = a.y * a.y;
    let qzz: int = a.z * a.z;
    let qxy: int = a.x * a.y;
    let qxz: int = a.x * a.z;
    let qyz: int = a.y * a.z;
    let rxx: int = b.x * b.x;
    let ryy: int = b.y * b.y;
    let rzz: int = b.z * b.z;
    let rxy: int = b.x * b.y;
    let rxz: int = b.x * b.z;
    let ryz: int = b.y * b.z;
    let p1: int = a.y * b.z;
    let p2: int = a.z * b.y;
    let p3: int = a.z * b.x;
    let p4: int = a.x * b.z;
    let p5: int = a.x * b.y;
    let p6: int = a.y * b.x;
    let cx: int = v_cross(a, b).x;
    let cy: int = v_cross(a, b).y;
    let cz: int = v_cross(a, b).z;
    assert(cx == p1 - p2 && cy == p3 - p4 && cz == p5 - p6);
    assert(cx * cx == p1 * p1 - 2 * (p1 * p2) + p2 * p2) by (nonlinear_arith)
        requires
            cx == p1 - p2,
    ;
    assert(cy * cy == p3 * p3 - 2 * (p3 * p4) + p4 * p4) by (nonlinear_arith)
        requires
            cy == p3 - p4,
    ;
    assert(cz * cz == p5 * p5 - 2 * (p5 * p6) + p6 * p6) by (nonlinear_arith)
        requires
            cz == p5 - p6,
    ;
    lemma_mul_swap(a.y, b.z, a.y, b.z);
    lemma_mul_swap(a.z, b.y, a.z, b.y);
    lemma_mul_swap(a.z, b.x, a.z, b.x);
    lemma_mul_swap(a.x, b.z, a.x, b.z);
    lemma_mul_swap(a.x, b.y, a.x, b.y);
    lemma_mul_swap(a.y, b.x, a.y, b.x);
    assert(p1 * p1 == qyy * rzz && p2 * p2 == qzz * ryy && p3 * p3 == qzz * rxx && p4 * p4 == qxx
        * rzz && p5 * p5 == qxx * ryy && p6 * p6 == qyy * rxx);
    lemma_mul_swap(a.y, b.z, a.z, b.y);
    lemma_mul_swap(a.z, b.x, a.x, b.z);
    lemma_mul_swap(a.x, b.y, a.y, b.x);
    lemma_mul_is_commutative(b.z, b.y);
    lemma_mul_is_commutative(a.z, a.x);
    lemma_mul_is_commutative(b.y, b.x);
    assert(b.z * b.y == ryz && a.z * a.x == qxz && b.x * b.z == rxz && b.y * b.x == rxy);
    assert(p1 * p2 == qyz * ryz && p3 * p4 == qxz * rxz && p5 * p6 == qxy * rxy);
    let d1: int = a.x * b.x;
    let d2: int = a.y * b.y;
    let d3: int = a.z * b.z;
    lemma_mul_swap(a.x, b.x, a.x, b.x);
    lemma_mul_swap(a.y, b.y, a.y, b.y);
    lemma_mul_swap(a.z, b.z, a.z, b.z);
    lemma_mul_swap(a.x, b.x, a.y, b.y);
    lemma_mul_swap(a.x, b.x, a.z, b.z);
    lemma_mul_swap(a.y, b.y, a.z, b.z);
    assert(d1 * d1 == qxx * rxx && d2 * d2 == qyy * ryy && d3 * d3 == qzz * rzz);
    assert(b.x * b.y == rxy && b.x * b.z == rxz && b.y * b.z == ryz);
    assert(d1 * d2 == qxy * rxy && d1 * d3 == qxz * rxz && d2 * d3 == qyz * ryz);
    let dt: int = v_dot(a, b);
    assert(dt == d1 + d2 + d3);
    assert(dt * dt == d1 * d1 + d2 * d2 + d3 * d3 + 2 * (d1 * d2) + 2 * (d1 * d3) + 2 * (d2 * d3))
        by (nonlinear_arith)
        requires
            dt == d1 + d2 + d3,
    ;
    let na: int = norm2_v(a);
    let nb: int = norm2_v(b);
    assert(na == qxx + qyy + qzz && nb == rxx + ryy + rzz);
    assert(na * nb == qxx * rxx + qxx * ryy + qxx * rzz + qyy * rxx + qyy * ryy + qyy * rzz + qzz
        * rxx + qzz * ryy + qzz * rzz) by (nonlinear_arith)
        requires
            na == qxx + qyy + qzz,
            nb == rxx + ryy + rzz,
    ;
    assert(norm2_v(v_cross(a, b)) == cx * cx + cy * cy + cz * cz);
}

/// Products can be regrouped: `(p q) (r t) == (p r) (q t)`.
proof fn lemma_mul_swap(p: int, q: int, r: int, t: int)
    ensures
        (p * q) * (r * t) == (p * r) * (q * t),
{
    assert((p * q) * (r * t) == (p * r) * (q * t)) by (nonlinear_arith);
}

/// Scaling one factor scales the dot product.
pub proof fn lemma_dot_scale(a: Vec3, b: Vec3, k: int)
    ensures
        v_dot(a, v_scale_int(b, k)) == k * v_dot(a, b),
{
    assert(a.x * (b.x * k) == k * (a.x * b.x)) by (nonlinear_arith);
    assert(a.y * (b.y * k) == k * (a.y * b.y)) by (nonlinear_arith);
    assert(a.z * (b.z * k) == k * (a.z * b.z)) by (nonlinear_arith);
    let d1: int = a.x * b.x;
    let d2: int = a.y * b.y;
    let d3: int = a.z * b.z;
    assert(k * d1 + k * d2 + k * d3 == k * (d1 + d2 + d3)) by (nonlinear_arith);
}

/// Rounding a vector componentwise moves its dot product with `a` by less
/// than the divisor times `|a.x| + |a.y| + |a.z|`.
pub proof fn lemma_dot_round(a: Vec3, w: Vec3, d: int)
    requires
        d > 0,
    ensures
        abs_i(d * v_dot(a, v_tdiv(w, d)) - v_dot(a, w)) <= d * sum_abs(a),
{
    crate::fixed::lemma_tdiv_mul_range(w.x, d);
    crate::fixed::lemma_tdiv_mul_range(w.y, d);
    crate::fixed::lemma_tdiv_mul_range(w.z, d);
    let qx: int = tdiv(w.x, d);
    let qy: int = tdiv(w.y, d);
    let qz: int = tdiv(w.z, d);
    let ex: int = d * qx - w.x;
    let ey: int = d * qy - w.y;
    let ez: int = d * qz - w.z;
    assert(abs_i(ex) < d && abs_i(ey) < d && abs_i(ez) < d);
    let px: int = a.x * qx;
    let py: int = a.y * qy;
    let pz: int = a.z * qz;
    assert(d * (px + py + pz) == d * px + d * py + d * pz) by (nonlinear_arith);
    assert(d * px == a.x * (d * qx)) by (nonlinear_arith)
        requires
            px == a.x * qx,
    ;
    assert(d * py == a.y * (d * qy)) by (nonlinear_arith)
        requires
            py == a.y * qy,
    ;
    assert(d * pz == a.z * (d * qz)) by (nonlinear_arith)
        requires
            pz == a.z * qz,
    ;
    assert(a.x * (d * qx) - a.x * w.x == a.x * ex) by (nonlinear_arith)
        requires
            ex == d * qx - w.x,
    ;
    assert(a.y * (d * qy) - a.y * w.y == a.y * ey) by (nonlinear_arith)
        requires
            ey == d * qy - w.y,
    ;
    assert(a.z * (d * qz) - a.z * w.z == a.z * ez) by (nonlinear_arith)
        requires
            ez == d * qz - w.z,
    ;
    assert(v_dot(a, v_tdiv(w, d)) == px + py + pz);
    assert(d * v_dot(a, v_tdiv(w, d)) - v_dot(a, w) == a.x * ex + a.y * ey + a.z * ez);
    lemma_abs_mul_bound(a.x, ex, abs_i(a.x), d - 1);
    lemma_abs_mul_bound(a.y, ey, abs_i(a.y), d - 1);
    lemma_abs_mul_bound(a.z, ez, abs_i(a.z), d - 1);
    assert(abs_i(a.x) * (d - 1) + abs_i(a.y) * (d - 1) + abs_i(a.z) * (d - 1) <= d * sum_abs(a))
        by (nonlinear_arith)
        requires
            abs_i(a.x) >= 0,
            abs_i(a.y) >= 0,
            abs_i(a.z) >= 0,
            d > 0,
            sum_abs(a) == abs_i(a.x) + abs_i(a.y) + abs_i(a.z),
    ;
}

/// Rounding a vector componentwise keeps its squared norm between
/// `norm2 - 2 d (|x|+|y|+|z|)` and `norm2`, scaled by the divisor squared.
pub proof fn lemma_norm2_round(w: Vec3, d: int)
    requires
        d > 0,
    ensures
        (d * d) * norm2_v(v_tdiv(w, d)) <= norm2_v(w),
        (d * d) * norm2_v(v_tdiv(w, d)) >= norm2_v(w) - 2 * (d * sum_abs(w)),
{
    lemma_norm2_round_comp(w.x, d);
    lemma_norm2_round_comp(w.y, d);
    lemma_norm2_round_comp(w.z, d);
    let q: Vec3 = v_tdiv(w, d);
    let dd: int = d * d;
    assert(dd * norm2_v(q) == dd * (q.x * q.x) + dd * (q.y * q.y) + dd * (q.z * q.z))
        by (nonlinear_arith)
        requires
            norm2_v(q) == q.x * q.x + q.y * q.y + q.z * q.z,
    ;
    assert(2 * (d * sum_abs(w)) == 2 * (d * abs_i(w.x)) + 2 * (d * abs_i(w.y)) + 2 * (d * abs_i(
        w.z,
    ))) by (nonlinear_arith)
        requires
            sum_abs(w) == abs_i(w.x) + abs_i(w.y) + abs_i(w.z),
    ;
}

/// One component of `lemma_norm2_round`.
proof fn lemma_norm2_round_comp(c: int, d: int)
    requires
        d > 0,
    ensures
        (d * d) * (tdiv(c, d) * tdiv(c, d)) <= c * c,
        (d * d) * (tdiv(c, d) * tdiv(c, d)) >= c * c - 2 * (d * abs_i(c)),
{
    lemma_tdiv(c, d);
    crate::fixed::lemma_tdiv_mul_range(c, d);
    let q: int = tdiv(c, d);
    let e: int = c - d * q;
    assert((d * d) * (q * q) <= c * c) by (nonlinear_arith)
        requires
            d * abs_i(q) <= abs_i(c),
            abs_i(q) == if q >= 0 { q } else { -q },
            abs_i(c) == if c >= 0 { c } else { -c },
            d > 0,
    ;
    assert((d * d) * (q * q) >= c * c - 2 * (d * abs_i(c))) by (nonlinear_arith)
        requires
            e == c - d * q,
            abs_i(e) < d,
            abs_i(e) == if e >= 0 { e } else { -e },
            abs_i(c) == if c >= 0 { c } else { -c },
            d > 0,
    ;
}

/// Componentwise and component-sum bounds on a vector whose squared norm is
/// in the unit range.
pub proof fn lemma_unit_bounds(v: Vec3)
    requires
        norm2_v(v) <= UNIT_NORM2_MAX as int,
    ensures
        v_bounded(v, UNIT_ABS_MAX as int),
        sum_abs(v) <= UNIT_SUM_ABS_MAX as int,
{
    lemma_norm2_nonneg(v);
    assert(abs_i(v.x) <= 65540) by (nonlinear_arith)
        requires
            v.x * v.x <= 4295396792,
            abs_i(v.x) == if v.x >= 0 { v.x } else { -v.x },
    ;
    assert(abs_i(v.y) <= 65540) by (nonlinear_arith)
        requires
            v.y * v.y <= 4295396792,
            abs_i(v.y) == if v.y >= 0 { v.y } else { -v.y },
    ;
    assert(abs_i(v.z) <= 65540) by (nonlinear_arith)
        requires
            v.z * v.z <= 4295396792,
            abs_i(v.z) == if v.z >= 0 { v.z } else { -v.z },
    ;
    assert(sum_abs(v) <= 113528) by (nonlinear_arith)
        requires
            v.x * v.x + v.y * v.y + v.z * v.z <= 4295396792,
            sum_abs(v) == abs_i(v.x) + abs_i(v.y) + abs_i(v.z),
            abs_i(v.x) == if v.x >= 0 { v.x } else { -v.x },
            abs_i(v.y) == if v.y >= 0 { v.y } else { -v.y },
            abs_i(v.z) == if v.z >= 0 { v.z } else { -v.z },
    ;
}

/// Normalising `v` keeps its dot product with any `a` under control: in
/// product form, `|m * (a . q)| <= m * (|a.x|+|a.y|+|a.z|) + SCALE * |a . v|`
/// where `m` is the rounded-down norm of `v` and `q` its normalisation.
pub proof fn lemma_normalised_dot(a: Vec3, v: Vec3)
    requires
        norm2_v(v) >= MIN_NORM2 as int,
    ensures
        abs_i(sqrt_floor(norm2_v(v)) * v_dot(a, normalise_spec(v))) <= sqrt_floor(norm2_v(v))
            * sum_abs(a) + (SCALE as int) * abs_i(v_dot(a, v)),
{
    let m: int = sqrt_floor(norm2_v(v));
    let s: int = SCALE as int;
    lemma_normalise_unit(v);
    lemma_dot_round(a, v_scale_int(v, s), m);
    lemma_dot_scale(a, v, s);
    let x: int = v_dot(a, normalise_spec(v));
    assert(abs_i(m * x - s * v_dot(a, v)) <= m * sum_abs(a));
    assert(abs_i(s * v_dot(a, v)) == s * abs_i(v_dot(a, v))) by (nonlinear_arith)
        requires
            s > 0,
            abs_i(v_dot(a, v)) == if v_dot(a, v) >= 0 { v_dot(a, v) } else { -v_dot(a, v) },
            abs_i(s * v_dot(a, v)) == if s * v_dot(a, v) >= 0 { s * v_dot(a, v) } else { -(s
                * v_dot(a, v)) },
    ;
}

/// Cross-product orthogonality as the executable `cross` returns it, with
/// its rounding: the raw dot product of a factor with the
/// rounded cross product is at most `|a.x|+|a.y|+|a.z|`, which is below one
/// part in ten thousand of a unit dot product for unit-scale factors.
pub proof fn lemma_cross_fixed_orthogonal(a: Vec3, b: Vec3)
    ensures
        abs_i(v_dot(a, cross_fixed(a, b))) <= sum_abs(a),
        abs_i(v_dot(b, cross_fixed(a, b))) <= sum_abs(b),
{
    let s: int = SCALE as int;
    lemma_cross_orthogonal(a, b);
    lemma_dot_round(a, v_cross(a, b), s);
    lemma_dot_round(b, v_cross(a, b), s);
    let xa: int = v_dot(a, cross_fixed(a, b));
    let xb: int = v_dot(b, cross_fixed(a, b));
    assert(abs_i(xa) <= sum_abs(a)) by (nonlinear_arith)
        requires
            abs_i(s * xa) <= s * sum_abs(a),
            s > 0,
            abs_i(xa) == if xa >= 0 { xa } else { -xa },
            abs_i(s * xa) == if s * xa >= 0 { s * xa } else { -(s * xa) },
    ;
    assert(abs_i(xb) <= sum_abs(b)) by (nonlinear_arith)
        requires
            abs_i(s * xb) <= s * sum_abs(b),
            s > 0,
            abs_i(xb) == if xb >= 0 { xb } else { -xb },
            abs_i(s * xb) == if s * xb >= 0 { s * xb } else { -(s * xb) },
    ;
}

/// The wide combination `c1 u1 + c2 u2 + c3 u3`, componentwise.
pub open spec fn v_combo(u1: Vec3, u2: Vec3, u3: Vec3, c1: int, c2: int, c3: int) -> Vec3 {
    Vec3 {
        x: c1 * u1.x + c2 * u2.x + c3 * u3.x,
        y: c1 * u1.y + c2 * u2.y + c3 * u3.y,
        z: c1 * u1.z + c2 * u2.z + c3 * u3.z,
    }
}

/// The squared norm of a three-vector combination, expanded over the
/// vectors' norms and pairwise dot products.
pub proof fn lemma_combo_expand(u1: Vec3, u2: Vec3, u3: Vec3, c1: int, c2: int, c3: int)
    ensures
        norm2_v(v_combo(u1, u2, u3, c1, c2, c3)) == (c1 * c1) * norm2_v(u1) + (c2 * c2) * norm2_v(
            u2,
        ) + (c3 * c3) * norm2_v(u3) + 2 * ((c1 * c2) * v_dot(u1, u2)) + 2 * ((c1 * c3) * v_dot(
            u1,
            u3,
        )) + 2 * ((c2 * c3) * v_dot(u2, u3)),
{
    let w: Vec3 = v_combo(u1, u2, u3, c1, c2, c3);
    let n1: int = norm2_v(u1);
    let n2: int = norm2_v(u2);
    let n3: int = norm2_v(u3);
    let d12: int = v_dot(u1, u2);
    let d13: int = v_dot(u1, u3);
    let d23: int = v_dot(u2, u3);
    lemma_combo_axis(u1.x, u2.x, u3.x, c1, c2, c3, w.x);
    lemma_combo_axis(u1.y, u2.y, u3.y, c1, c2, c3, w.y);
    lemma_combo_axis(u1.z, u2.z, u3.z, c1, c2, c3, w.z);
    let cc1: int = c1 * c1;
    let cc2: int = c2 * c2;
    let cc3: int = c3 * c3;
    let cp12: int = c1 * c2;
    let cp13: int = c1 * c3;
    let cp23: int = c2 * c3;
    assert(cc1 * n1 == cc1 * (u1.x * u1.x) + cc1 * (u1.y * u1.y) + cc1 * (u1.z * u1.z))
        by (nonlinear_arith)
        requires
            n1 == u1.x * u1.x + u1.y * u1.y + u1.z * u1.z,
    ;
    assert(cc2 * n2 == cc2 * (u2.x * u2.x) + cc2 * (u2.y * u2.y) + cc2 * (u2.z * u2.z))
        by (nonlinear_arith)
        requires
            n2 == u2.x * u2.x + u2.y * u2.y + u2.z * u2.z,
    ;
    assert(cc3 * n3 == cc3 * (u3.x * u3.x) + cc3 * (u3.y * u3.y) + cc3 * (u3.z * u3.z))
        by (nonlinear_arith)
        requires
            n3 == u3.x * u3.x + u3.y * u3.y + u3.z * u3.z,
    ;
    assert(cp12 * d12 == cp12 * (u1.x * u2.x) + cp12 * (u1.y * u2.y) + cp12 * (u1.z * u2.z))
        by (nonlinear_arith)
        requires
            d12 == u1.x * u2.x + u1.y * u2.y + u1.z * u2.z,
    ;
    assert(cp13 * d13 == cp13 * (u1.x * u3.x) + cp13 * (u1.y * u3.y) + cp13 * (u1.z * u3.z))
        by (nonlinear_arith)
        requires
            d13 == u1.x * u3.x + u1.y * u3.y + u1.z * u3.z,
    ;
    assert(cp23 * d23 == cp23 * (u2.x * u3.x) + cp23 * (u2.y * u3.y) + cp23 * (u2.z * u3.z))
        by (nonlinear_arith)
        requires
            d23 == u2.x * u3.x + u2.y * u3.y + u2.z * u3.z,
    ;
}

/// Two-sided bounds on the squared norm of a combination of three
/// near-orthonormal vectors: between `cc (0.9999 SCALE^2 - 2 tol)` and
/// `cc (1.0001 SCALE^2 + 2 tol)` for `cc` the squared sum of the
/// coefficients and `tol` the frame tolerance.
pub proof fn lemma_combo_norm2_range(u1: Vec3, u2: Vec3, u3: Vec3, c1: int, c2: int, c3: int)
    requires
        is_unit(u1),
        is_unit(u2),
        is_unit(u3),
        abs_i(v_dot(u1, u2)) <= FRAME_DOT_TOL as int,
        abs_i(v_dot(u1, u3)) <= FRAME_DOT_TOL as int,
        abs_i(v_dot(u2, u3)) <= FRAME_DOT_TOL as int,
    ensures
        norm2_v(v_combo(u1, u2, u3, c1, c2, c3)) >= (c1 * c1 + c2 * c2 + c3 * c3) * 4293678808,
        norm2_v(v_combo(u1, u2, u3, c1, c2, c3)) <= (c1 * c1 + c2 * c2 + c3 * c3) * 4296255784,
{
    lemma_combo_expand(u1, u2, u3, c1, c2, c3);
    let n1: int = norm2_v(u1);
    let n2: int = norm2_v(u2);
    let n3: int = norm2_v(u3);
    let d12: int = v_dot(u1, u2);
    let d13: int = v_dot(u1, u3);
    let d23: int = v_dot(u2, u3);
    let cc1: int = c1 * c1;
    let cc2: int = c2 * c2;
    let cc3: int = c3 * c3;
    let cp12: int = c1 * c2;
    let cp13: int = c1 * c3;
    let cp23: int = c2 * c3;
    assert(cc1 >= 0 && cc2 >= 0 && cc3 >= 0) by (nonlinear_arith)
        requires
            cc1 == c1 * c1,
            cc2 == c2 * c2,
            cc3 == c3 * c3,
    ;
    assert(cc1 * 4294537800 <= cc1 * n1 <= cc1 * 4295396792) by (nonlinear_arith)
        requires
            cc1 >= 0,
            4294537800 <= n1 <= 4295396792,
    ;
    assert(cc2 * 4294537800 <= cc2 * n2 <= cc2 * 4295396792) by (nonlinear_arith)
        requires
            cc2 >= 0,
            4294537800 <= n2 <= 4295396792,
    ;
    assert(cc3 * 4294537800 <= cc3 * n3 <= cc3 * 4295396792) by (nonlinear_arith)
        requires
            cc3 >= 0,
            4294537800 <= n3 <= 4295396792,
    ;
    lemma_abs_mul_bound(cp12, d12, abs_i(cp12), FRAME_DOT_TOL as int);
    lemma_abs_mul_bound(cp13, d13, abs_i(cp13), FRAME_DOT_TOL as int);
    lemma_abs_mul_bound(cp23, d23, abs_i(cp23), FRAME_DOT_TOL as int);
    assert(2 * abs_i(cp12) <= cc1 + cc2) by (nonlinear_arith)
        requires
            cp12 == c1 * c2,
            cc1 == c1 * c1,
            cc2 == c2 * c2,
            abs_i(cp12) == if cp12 >= 0 { cp12 } else { -cp12 },
    ;
    assert(2 * abs_i(cp13) <= cc1 + cc3) by (nonlinear_arith)
        requires
            cp13 == c1 * c3,
            cc1 == c1 * c1,
            cc3 == c3 * c3,
            abs_i(cp13) == if cp13 >= 0 { cp13 } else { -cp13 },
    ;
    assert(2 * abs_i(cp23) <= cc2 + cc3) by (nonlinear_arith)
        requires
            cp23 == c2 * c3,
            cc2 == c2 * c2,
            cc3 == c3 * c3,
            abs_i(cp23) == if cp23 >= 0 { cp23 } else { -cp23 },
    ;
}

/// A combination of three near-orthonormal vectors with coefficients of
/// squared sum close to `SCALE * SCALE` is long enough to normalise, and its
/// components stay well inside the wide range.
pub proof fn lemma_combo_norm2(u1: Vec3, u2: Vec3, u3: Vec3, c1: int, c2: int, c3: int)
    requires
        is_unit(u1),
        is_unit(u2),
        is_unit(u3),
        abs_i(v_dot(u1, u2)) <= FRAME_DOT_TOL as int,
        abs_i(v_dot(u1, u3)) <= FRAME_DOT_TOL as int,
        abs_i(v_dot(u2, u3)) <= FRAME_DOT_TOL as int,
        c1 * c1 + c2 * c2 + c3 * c3 >= 4293918720,
        abs_i(c1) <= 2 * SCALE as int,
        abs_i(c2) <= 2 * SCALE as int,
        abs_i(c3) <= 2 * SCALE as int,
    ensures
        norm2_v(v_combo(u1, u2, u3, c1, c2, c3)) >= MIN_NORM2 as int,
        v_bounded(v_combo(u1, u2, u3, c1, c2, c3), WIDE_MAX as int),
{
    lemma_combo_norm2_range(u1, u2, u3, c1, c2, c3);
    let cc: int = c1 * c1 + c2 * c2 + c3 * c3;
    assert(cc * 4293678808 >= 4293918720 * 4293678808) by (nonlinear_arith)
        requires
            cc >= 4293918720,
    ;
    assert(4293918720 * 4293678808 >= MIN_NORM2 as int);
    // componentwise bound
    lemma_unit_bounds(u1);
    lemma_unit_bounds(u2);
    lemma_unit_bounds(u3);
    lemma_abs_mul_bound(c1, u1.x, 131072, 65540);
    lemma_abs_mul_bound(c2, u2.x, 131072, 65540);
    lemma_abs_mul_bound(c3, u3.x, 131072, 65540);
    lemma_abs_mul_bound(c1, u1.y, 131072, 65540);
    lemma_abs_mul_bound(c2, u2.y, 131072, 65540);
    lemma_abs_mul_bound(c3, u3.y, 131072, 65540);
    lemma_abs_mul_bound(c1, u1.z, 131072, 65540);
    lemma_abs_mul_bound(c2, u2.z, 131072, 65540);
    lemma_abs_mul_bound(c3, u3.z, 131072, 65540);
}

/// The dot product of a three-vector combination with `a`, expanded.
pub proof fn lemma_combo_dot(u1: Vec3, u2: Vec3, u3: Vec3, c1: int, c2: int, c3: int, a: Vec3)
    ensures
        v_dot(v_combo(u1, u2, u3, c1, c2, c3), a) == c1 * v_dot(u1, a) + c2 * v_dot(u2, a) + c3
            * v_dot(u3, a),
{
    lemma_combo_dot_axis(u1.x, u2.x, u3.x, c1, c2, c3, a.x);
    lemma_combo_dot_axis(u1.y, u2.y, u3.y, c1, c2, c3, a.y);
    lemma_combo_dot_axis(u1.z, u2.z, u3.z, c1, c2, c3, a.z);
    assert(c1 * v_dot(u1, a) == c1 * (u1.x * a.x) + c1 * (u1.y * a.y) + c1 * (u1.z * a.z))
        by (nonlinear_arith)
        requires
            v_dot(u1, a) == u1.x * a.x + u1.y * a.y + u1.z * a.z,
    ;
    assert(c2 * v_dot(u2, a) == c2 * (u2.x * a.x) + c2 * (u2.y * a.y) + c2 * (u2.z * a.z))
        by (nonlinear_arith)
        requires
            v_dot(u2, a) == u2.x * a.x + u2.y * a.y + u2.z * a.z,
    ;
    assert(c3 * v_dot(u3, a) == c3 * (u3.x * a.x) + c3 * (u3.y * a.y) + c3 * (u3.z * a.z))
        by (nonlinear_arith)
        requires
            v_dot(u3, a) == u3.x * a.x + u3.y * a.y + u3.z * a.z,
    ;
}

/// One axis of `lemma_combo_dot`.
proof fn lemma_combo_dot_axis(x1: int, x2: int, x3: int, c1: int, c2: int, c3: int, ax: int)
    ensures
        (c1 * x1 + c2 * x2 + c3 * x3) * ax == c1 * (x1 * ax) + c2 * (x2 * ax) + c3 * (x3 * ax),
{
    let t1: int = c1 * x1;
    let t2: int = c2 * x2;
    let t3: int = c3 * x3;
    assert((t1 + t2 + t3) * ax == t1 * ax + t2 * ax + t3 * ax) by (nonlinear_arith);
    assert((c1 * x1) * ax == c1 * (x1 * ax)) by (nonlinear_arith);
    assert((c2 * x2) * ax == c2 * (x2 * ax)) by (nonlinear_arith);
    assert((c3 * x3) * ax == c3 * (x3 * ax)) by (nonlinear_arith);
}


/// One axis of the norm expansion of a three-vector combination.
proof fn lemma_combo_axis(x1: int, x2: int, x3: int, c1: int, c2: int, c3: int, wx: int)
    requires
        wx == c1 * x1 + c2 * x2 + c3 * x3,
    ensures
        wx * wx == (c1 * c1) * (x1 * x1) + (c2 * c2) * (x2 * x2) + (c3 * c3) * (x3 * x3) + 2 * ((c1
            * c2) * (x1 * x2)) + 2 * ((c1 * c3) * (x1 * x3)) + 2 * ((c2 * c3) * (x2 * x3)),
{
    let t1: int = c1 * x1;
    let t2: int = c2 * x2;
    let t3: int = c3 * x3;
    assert(wx * wx == t1 * t1 + t2 * t2 + t3 * t3 + 2 * (t1 * t2) + 2 * (t1 * t3) + 2 * (t2 * t3))
        by (nonlinear_arith)
        requires
            wx == t1 + t2 + t3,
    ;
    lemma_mul_swap(c1, x1, c1, x1);
    lemma_mul_swap(c2, x2, c2, x2);
    lemma_mul_swap(c3, x3, c3, x3);
    lemma_mul_swap(c1, x1, c2, x2);
    lemma_mul_swap(c1, x1, c3, x3);
    lemma_mul_swap(c2, x2, c3, x3);
}

impl Vector {
    /// Two unit vectors orthogonal (within `FRAME_DOT_TOL`) to each other
    /// and to the normalisation of `self`, forming the local frame that
    /// maps hemisphere samples to world space.
    pub fn make_orthogonal_frame(self) -> (r: (Vector, Vector))
        requires
            v_bounded(self@, GEN_MAX as int),
            norm2_v(self@) >= MIN_NORM2 as int,
        ensures
            is_unit(r.0@),
            is_unit(r.1@),
            v_bounded(r.0@, SCALE as int),
            v_bounded(r.1@, SCALE as int),
            abs_i(v_dot(normalise_spec(self@), r.0@)) <= FRAME_DOT_TOL as int,
            abs_i(v_dot(normalise_spec(self@), r.1@)) <= FRAME_DOT_TOL as int,
            abs_i(v_dot(r.0@, r.1@)) <= FRAME_DOT_TOL as int,
    {
        let n: Vector = self.normalised();
        proof {
            lemma_unit_bounds(n@);
            lemma_norm2_nonneg(n@);
        }
        let nx_abs: i64 = if n.x >= 0 {
            n.x
        } else {
            -n.x
        };
        // the cross product of n with the reference axis, computed exactly:
        // crossing with (SCALE, 0, 0) or (0, SCALE, 0) scales components by
        // SCALE, which the fixed-point rounding removes again.
        let p: Vector = if nx_abs < 52429 {
            Vector { x: 0, y: n.z, z: -n.y }
        } else {
            Vector { x: -n.z, y: 0, z: n.x }
        };
        proof {
            if nx_abs < 52429 {
                assert(n@.x * n@.x <= 52428 * 52428) by (nonlinear_arith)
                    requires
                        abs_i(n@.x) <= 52428,
                        abs_i(n@.x) == if n@.x >= 0 { n@.x } else { -n@.x },
                ;
                assert(norm2_v(p@) == n@.z * n@.z + (-n@.y) * (-n@.y));
                assert((-n@.y) * (-n@.y) == n@.y * n@.y) by (nonlinear_arith);
                assert(norm2_v(n@) == n@.x * n@.x + n@.y * n@.y + n@.z * n@.z);
                assert(norm2_v(p@) >= MIN_NORM2 as int);
            } else {
                assert(n@.x * n@.x >= 52429 * 52429) by (nonlinear_arith)
                    requires
                        abs_i(n@.x) >= 52429,
                        abs_i(n@.x) == if n@.x >= 0 { n@.x } else { -n@.x },
                ;
                assert(norm2_v(p@) == (-n@.z) * (-n@.z) + n@.x * n@.x);
                assert((-n@.z) * (-n@.z) == n@.z * n@.z) by (nonlinear_arith);
                assert(n@.z * n@.z >= 0) by (nonlinear_arith);
                assert(norm2_v(p@) >= MIN_NORM2 as int);
            }
            assert(v_dot(n@, p@) == 0) by (nonlinear_arith)
                requires
                    p@ == (Vec3 { x: 0, y: n@.z, z: -n@.y }) || p@ == (Vec3 {
                        x: -n@.z,
                        y: 0,
                        z: n@.x,
                    }),
                    v_dot(n@, p@) == n@.x * p@.x + n@.y * p@.y + n@.z * p@.z,
            ;
        }
        let v1: Vector = p.normalised();
        proof {
            lemma_unit_bounds(v1@);
            lemma_normalised_dot(n@, p@);
            lemma_normalise_unit(p@);
            assert(abs_i(v_dot(n@, v1@)) <= UNIT_SUM_ABS_MAX as int) by (nonlinear_arith)
                requires
                    abs_i(sqrt_floor(norm2_v(p@)) * v_dot(n@, v1@)) <= sqrt_floor(norm2_v(p@))
                        * sum_abs(n@),
                    sqrt_floor(norm2_v(p@)) >= 32768,
                    sum_abs(n@) <= UNIT_SUM_ABS_MAX as int,
                    abs_i(v_dot(n@, v1@)) == if v_dot(n@, v1@) >= 0 { v_dot(n@, v1@) } else { -v_dot(n@, v1@) },
                    abs_i(sqrt_floor(norm2_v(p@)) * v_dot(n@, v1@)) == if sqrt_floor(norm2_v(p@))
                        * v_dot(n@, v1@) >= 0 { sqrt_floor(norm2_v(p@)) * v_dot(n@, v1@) } else { -(sqrt_floor(norm2_v(p@)) * v_dot(n@, v1@)) },
            ;
        }
        let c: Vector = cross(n, v1);
        proof {
            lemma_frame_cross_norm(n@, v1@);
            lemma_scaled_tdiv_fits(v_cross(n@, v1@).x, 8590983200);
            lemma_scaled_tdiv_fits(v_cross(n@, v1@).y, 8590983200);
            lemma_scaled_tdiv_fits(v_cross(n@, v1@).z, 8590983200);
        }
        let v2: Vector = c.normalised();
        proof {
            lemma_cross_orthogonal(n@, v1@);
            lemma_dot_round(n@, v_cross(n@, v1@), SCALE as int);
            lemma_dot_round(v1@, v_cross(n@, v1@), SCALE as int);
            lemma_frame_final_dot(n@, c@);
            lemma_frame_final_dot(v1@, c@);
        }
        (v1, v2)
    }
}

/// The rounded cross product of two near-orthogonal unit vectors is long
/// enough to normalise, and its components are bounded.
proof fn lemma_frame_cross_norm(a: Vec3, b: Vec3)
    requires
        is_unit(a),
        is_unit(b),
        abs_i(v_dot(a, b)) <= UNIT_SUM_ABS_MAX as int,
    ensures
        norm2_v(cross_fixed(a, b)) >= 4293000000,
        v_bounded(v_cross(a, b), 8590983200),
        v_bounded(cross_fixed(a, b), GEN_MAX as int),
{
    let w: Vec3 = v_cross(a, b);
    let s: int = SCALE as int;
    lemma_lagrange(a, b);
    assert(norm2_v(a) * norm2_v(b) >= 4294537800 * 4294537800) by (nonlinear_arith)
        requires
            norm2_v(a) >= 4294537800,
            norm2_v(b) >= 4294537800,
    ;
    assert(v_dot(a, b) * v_dot(a, b) <= 113528 * 113528) by (nonlinear_arith)
        requires
            abs_i(v_dot(a, b)) <= 113528,
            abs_i(v_dot(a, b)) == if v_dot(a, b) >= 0 { v_dot(a, b) } else { -v_dot(a, b) },
    ;
    lemma_unit_bounds(a);
    lemma_unit_bounds(b);
    lemma_abs_mul_bound(a.y, b.z, 65540, 65540);
    lemma_abs_mul_bound(a.z, b.y, 65540, 65540);
    lemma_abs_mul_bound(a.z, b.x, 65540, 65540);
    lemma_abs_mul_bound(a.x, b.z, 65540, 65540);
    lemma_abs_mul_bound(a.x, b.y, 65540, 65540);
    lemma_abs_mul_bound(a.y, b.x, 65540, 65540);
    assert(v_bounded(w, 8590983200));
    lemma_norm2_round(w, s);
    // norm2(w) >= 4294537800^2 - 113528^2 and the rounding costs at most
    // 2 * SCALE * (3 * 8590983200), so SCALE^2 * norm2(rounded) is at least
    // 18443051139929640000 - 3378280399961702400 ... stay with safe figures:
    assert(norm2_v(w) >= 4294537800 * 4294537800 - 113528 * 113528);
    assert((s * s) * norm2_v(cross_fixed(a, b)) >= norm2_v(w) - 2 * (s * sum_abs(w)));
    assert(s * sum_abs(w) <= 65536 * 25772949600) by (nonlinear_arith)
        requires
            s == 65536,
            sum_abs(w) <= 25772949600,
    ;
    assert(norm2_v(cross_fixed(a, b)) >= 4293000000) by (nonlinear_arith)
        requires
            (4294967296 as int) * norm2_v(cross_fixed(a, b)) >= 4294537800 * 4294537800 - 113528
                * 113528 - 2 * (65536 * 25772949600),
    ;
    lemma_scaled_tdiv_fits(w.x, 8590983200);
    lemma_scaled_tdiv_fits(w.y, 8590983200);
    lemma_scaled_tdiv_fits(w.z, 8590983200);
}

/// Transfer of a small dot product through the final normalisation of the
/// frame: if `|a . c|` is at most `UNIT_SUM_ABS_MAX` and `c` is nearly unit
/// length, the dot product of `a` with the normalisation of `c` stays within
/// the frame tolerance.
proof fn lemma_frame_final_dot(a: Vec3, c: Vec3)
    requires
        norm2_v(a) <= UNIT_NORM2_MAX as int,
        norm2_v(c) >= 4293000000,
        abs_i(v_dot(a, c)) <= UNIT_SUM_ABS_MAX as int,
    ensures
        abs_i(v_dot(a, normalise_spec(c))) <= FRAME_DOT_TOL as int,
{
    lemma_unit_bounds(a);
    lemma_normalised_dot(a, c);
    lemma_sqrt_floor(norm2_v(c));
    let m: int = sqrt_floor(norm2_v(c));
    assert(m >= 65520) by (nonlinear_arith)
        requires
            norm2_v(c) >= 4293000000,
            norm2_v(c) < (m + 1) * (m + 1),
            m >= 0,
    ;
    let x: int = v_dot(a, normalise_spec(c));
    assert(abs_i(m * x) <= m * sum_abs(a) + (SCALE as int) * abs_i(v_dot(a, c)));
    assert(m * sum_abs(a) + (SCALE as int) * abs_i(v_dot(a, c)) <= m * 113528 + 65536 * 113528)
        by (nonlinear_arith)
        requires
            sum_abs(a) <= 113528,
            abs_i(v_dot(a, c)) <= 113528,
            m >= 0,
    ;
    assert(abs_i(x) <= 227100) by (nonlinear_arith)
        requires
            abs_i(m * x) <= m * 113528 + 65536 * 113528,
            m >= 65520,
            abs_i(x) == if x >= 0 { x } else { -x },
            abs_i(m * x) == if m * x >= 0 { m * x } else { -(m * x) },
    ;
}

/// The dot product is symmetric.
pub proof fn lemma_dot_comm(a: Vec3, b: Vec3)
    ensures
        v_dot(a, b) == v_dot(b, a),
{
    lemma_mul_is_commutative(a.x, b.x);
    lemma_mul_is_commutative(a.y, b.y);
    lemma_mul_is_commutative(a.z, b.z);
}

} // verus!
