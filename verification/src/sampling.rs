//! Hemisphere sampling for the light-transport estimator.
//!
//! All samplers are trigonometry-free: a direction is built as a wide
//! combination of an orthogonal frame around the axis — the sampled cosine
//! along the axis, a random point on the matching circle across it — and
//! normalised once.  The distributions (uniform hemisphere, cosine-weighted
//! hemisphere, uniform spherical cap) come from the standard inversions:
//! a uniform cosine is uniform over the hemisphere's area, a square-root
//! law cosine is the cosine-weighted density, and a cosine uniform above a
//! cap bound is uniform over the cap.  What is verified holds of every
//! generator outcome: each returned direction is a unit vector whose raw
//! dot product with the (normalised) axis matches the drawn cosine within
//! `COS_TOL` — so a sampler cannot ignore its draw, and cap samples really
//! lie in the cap.

use crate::fixed::{
    abs_i, isqrt_u128, lemma_abs_mul_bound, lemma_sqrt_floor, lemma_tdiv, sqrt_floor, tdiv,
    tdiv_i128, SCALE, SCALE_SQ,
};
use crate::rng::rand_below;
use crate::vector::{
    is_unit, lemma_combo_dot, lemma_combo_norm2, lemma_combo_norm2_range, lemma_dot_comm,
    lemma_dot_round, lemma_dot_scale, lemma_sqrt_below, lemma_unit_bounds, norm2_v,
    normalise_spec, sum_abs, unit_from_wide, v_bounded, v_combo, v_dot, v_scale_int, v_tdiv, Vec3,
    Vector, FRAME_DOT_TOL, MIN_NORM2,
};
use vstd::prelude::*;

verus! {

/// The importance-sampling strategy the estimator runs with, fixed for a
/// render.
#[derive(Clone, Copy, Debug, PartialEq, Eq, Structural)]
pub enum SamplingStrategy {
    /// Directions uniform over the hemisphere; the contribution carries the
    /// compensating `2 cos` factor.
    Uniform,
    /// Directions with density proportional to the cosine, which cancels
    /// the integrand's cosine analytically.
    CosineWeighted,
    /// A balance-heuristic mixture of cosine sampling and direct sampling
    /// of the cap subtended by the light sphere.
    LightAware,
}

/// Tolerance (on raw dot products, scale `SCALE * SCALE`) between a sampled
/// direction's cosine along the normalised axis and the drawn cosine: about
/// one part in a thousand of a unit dot product, the accumulated frame,
/// circle and normalisation quantisation.
pub const COS_TOL: i64 = 4194304;

/// A random point close to the circle of radius `rad`: drawn by rejection
/// from the ring of the unit disk, then rescaled.  The squared length is
/// within the quantisation tolerance of `rad * rad`.
pub fn sample_circle(rng: &mut rand::rngs::ThreadRng, rad: i64) -> (p: (i64, i64))
    requires
        0 <= rad <= SCALE,
    ensures
        abs_i(p.0 as int) <= rad,
        abs_i(p.1 as int) <= rad,
        rad * rad - 524288 <= p.0 * p.0 + p.1 * p.1,
        p.0 * p.0 + p.1 * p.1 <= rad * rad + 262144,
{
    let mut attempts: u32 = 0;
    while attempts < 128
        invariant
            0 <= rad <= SCALE,
        decreases 128 - attempts,
    {
        let a: i64 = rand_below(rng, 131073) - 65536;
        let b: i64 = rand_below(rng, 131073) - 65536;
        proof {
            lemma_abs_mul_bound(a as int, a as int, 65536, 65536);
            lemma_abs_mul_bound(b as int, b as int, 65536, 65536);
        }
        let n2: i64 = a * a + b * b;
        if MIN_NORM2 <= n2 && n2 <= SCALE_SQ {
            proof {
                lemma_sqrt_floor(n2 as int);
                lemma_sqrt_below(n2 as int, 65537);
            }
            let rho: i64 = isqrt_u128(n2 as u128) as i64;
            proof {
                lemma_circle_point(a as int, b as int, rad as int, rho as int);
                lemma_abs_mul_bound(a as int, rad as int, 65536, 65536);
                lemma_abs_mul_bound(b as int, rad as int, 65536, 65536);
            }
            let ca: i64 = tdiv_i128((a as i128) * (rad as i128), rho as i128) as i64;
            let cb: i64 = tdiv_i128((b as i128) * (rad as i128), rho as i128) as i64;
            return (ca, cb);
        }
        attempts = attempts + 1;
    }
    // Vanishingly unlikely fallback (the ring rejection accepts nearly half
    // of all draws): a fixed point exactly on the circle.
    (rad, 0)
}

/// Rescaling a ring point to radius `rad` lands within the quantisation
/// tolerance of the circle of radius `rad`.
proof fn lemma_circle_point(a: int, b: int, rad: int, rho: int)
    requires
        abs_i(a) <= 65536,
        abs_i(b) <= 65536,
        0 <= rad <= 65536,
        rho == sqrt_floor(a * a + b * b),
        1073741824 <= a * a + b * b <= 4294967296,
    ensures
        rho >= 32768,
        abs_i(tdiv(a * rad, rho)) <= rad,
        abs_i(tdiv(b * rad, rho)) <= rad,
        rad * rad - 524288 <= tdiv(a * rad, rho) * tdiv(a * rad, rho) + tdiv(b * rad, rho) * tdiv(
            b * rad,
            rho,
        ),
        tdiv(a * rad, rho) * tdiv(a * rad, rho) + tdiv(b * rad, rho) * tdiv(b * rad, rho) <= rad
            * rad + 262144,
{
    let n2: int = a * a + b * b;
    lemma_sqrt_floor(n2);
    assert(rho >= 32768) by (nonlinear_arith)
        requires
            n2 >= 1073741824,
            n2 < (rho + 1) * (rho + 1),
            rho >= 0,
    ;
    assert(a * a >= 0 && b * b >= 0) by (nonlinear_arith);
    assert(abs_i(a) <= rho && abs_i(b) <= rho) by (nonlinear_arith)
        requires
            a * a <= n2,
            b * b <= n2,
            n2 < (rho + 1) * (rho + 1),
            rho >= 0,
            abs_i(a) == if a >= 0 { a } else { -a },
            abs_i(b) == if b >= 0 { b } else { -b },
    ;
    lemma_circle_comp(a, rad, rho);
    lemma_circle_comp(b, rad, rho);
    let ca: int = tdiv(a * rad, rho);
    let cb: int = tdiv(b * rad, rho);
    // upper bound: (ca^2 + cb^2) rho^2 <= (a^2+b^2) rad^2 <= (rho^2 + 2 rho) rad^2
    let rr: int = rho * rho;
    let qq: int = ca * ca + cb * cb;
    assert(qq * rr == (ca * ca) * rr + (cb * cb) * rr) by (nonlinear_arith)
        requires
            qq == ca * ca + cb * cb,
    ;
    assert(n2 * (rad * rad) == (a * a) * (rad * rad) + (b * b) * (rad * rad)) by (nonlinear_arith)
        requires
            n2 == a * a + b * b,
    ;
    assert(rad * rad >= 0) by (nonlinear_arith);
    assert((ca * ca + cb * cb) * rr <= n2 * (rad * rad));
    assert(n2 <= rr + 2 * rho) by (nonlinear_arith)
        requires
            n2 < (rho + 1) * (rho + 1),
            rr == rho * rho,
    ;
    assert(n2 * (rad * rad) <= (rr + 2 * rho) * (rad * rad)) by (nonlinear_arith)
        requires
            n2 <= rr + 2 * rho,
            rad * rad >= 0,
    ;
    assert(rad * rad <= 4294967296) by (nonlinear_arith)
        requires
            0 <= rad <= 65536,
    ;
    assert(ca * ca >= 0 && cb * cb >= 0) by (nonlinear_arith);
    assert(ca * ca + cb * cb <= rad * rad + 262144) by (nonlinear_arith)
        requires
            (ca * ca + cb * cb) * rr <= (rr + 2 * rho) * (rad * rad),
            rr == rho * rho,
            rho >= 32768,
            0 <= rad * rad <= 4294967296,
            ca * ca + cb * cb >= 0,
    ;
    // lower bound: (ca^2 + cb^2) rho^2 >= (a^2+b^2) rad^2 - 2 rho (|a|+|b|) rad
    assert(n2 * (rad * rad) >= rr * (rad * rad)) by (nonlinear_arith)
        requires
            n2 >= rr,
            rad * rad >= 0,
    ;
    assert(ca * ca + cb * cb >= rad * rad - 524288) by (nonlinear_arith)
        requires
            (ca * ca + cb * cb) * rr >= rr * (rad * rad) - 2 * (rho * (abs_i(a) * rad)) - 2 * (rho
                * (abs_i(b) * rad)),
            rr == rho * rho,
            rho >= 32768,
            abs_i(a) <= 65536,
            abs_i(b) <= 65536,
            0 <= rad <= 65536,
            abs_i(a) * rad <= 65536 * 65536,
            abs_i(b) * rad <= 65536 * 65536,
    ;
}

/// One component of `lemma_circle_point`: two-sided squared bounds on the
/// rescaled coordinate.
proof fn lemma_circle_comp(c: int, rad: int, rho: int)
    requires
        abs_i(c) <= rho,
        abs_i(c) <= 65536,
        0 <= rad <= 65536,
        rho >= 1,
    ensures
        abs_i(tdiv(c * rad, rho)) <= rad,
        (tdiv(c * rad, rho) * tdiv(c * rad, rho)) * (rho * rho) <= (c * c) * (rad * rad),
        (tdiv(c * rad, rho) * tdiv(c * rad, rho)) * (rho * rho) >= (c * c) * (rad * rad) - 2 * (rho
            * (abs_i(c) * rad)),
        abs_i(c) * rad <= 65536 * 65536,
{
    lemma_tdiv(c * rad, rho);
    let q: int = tdiv(c * rad, rho);
    let qa: int = abs_i(q);
    let ca: int = abs_i(c);
    assert(abs_i(c * rad) == ca * rad) by (nonlinear_arith)
        requires
            rad >= 0,
            ca == if c >= 0 { c } else { -c },
            abs_i(c * rad) == if c * rad >= 0 { c * rad } else { -(c * rad) },
    ;
    assert(rho * qa == qa * rho && rho * (qa + 1) == (qa + 1) * rho) by (nonlinear_arith);
    assert(qa <= rad) by (nonlinear_arith)
        requires
            qa * rho <= ca * rad,
            ca <= rho,
            rho >= 1,
            rad >= 0,
            qa >= 0,
    ;
    assert((qa * rho) * (qa * rho) <= (ca * rad) * (ca * rad)) by (nonlinear_arith)
        requires
            0 <= qa * rho,
            qa * rho <= ca * rad,
    ;
    assert((qa * rho) * (qa * rho) == (q * q) * (rho * rho)) by (nonlinear_arith)
        requires
            qa == if q >= 0 { q } else { -q },
    ;
    assert((ca * rad) * (ca * rad) == (c * c) * (rad * rad)) by (nonlinear_arith)
        requires
            ca == if c >= 0 { c } else { -c },
    ;
    // lower: (qa rho)^2 >= (ca rad)^2 - 2 rho (ca rad), since qa rho > ca rad - rho
    assert((qa * rho) * (qa * rho) >= (ca * rad) * (ca * rad) - 2 * (rho * (ca * rad)))
        by (nonlinear_arith)
        requires
            ca * rad < (qa + 1) * rho,
            qa * rho <= ca * rad,
            0 <= qa * rho,
            rho >= 1,
            0 <= ca * rad,
    ;
    assert(ca * rad <= 65536 * 65536) by (nonlinear_arith)
        requires
            0 <= ca <= 65536,
            0 <= rad <= 65536,
    ;
}

/// A unit direction whose cosine along (the normalisation of) `axis` is the
/// given `z / SCALE`, with uniform azimuth: the shared core of all three
/// samplers.
pub fn direction_with_cosine(rng: &mut rand::rngs::ThreadRng, axis: Vector, z: i64) -> (dir:
    Vector)
    requires
        is_unit(axis@),
        v_bounded(axis@, SCALE as int),
        0 <= z <= SCALE,
    ensures
        is_unit(dir@),
        v_bounded(dir@, SCALE as int),
        abs_i(v_dot(dir@, normalise_spec(axis@)) - z * (SCALE as int)) <= COS_TOL as int,
{
    let (v1, v2) = axis.make_orthogonal_frame();
    let nn: Vector = axis.normalised();
    proof {
        lemma_abs_mul_bound(z as int, z as int, SCALE as int, SCALE as int);
    }
    let zz: i128 = (z as i128) * (z as i128);
    proof {
        assert(0 <= zz <= SCALE_SQ) by (nonlinear_arith)
            requires
                0 <= z <= 65536,
                zz == z * z,
        ;
        lemma_sqrt_floor((SCALE_SQ as i128 - zz) as int);
        lemma_sqrt_below((SCALE_SQ as i128 - zz) as int, 65537);
    }
    let rad: i64 = isqrt_u128((SCALE_SQ as i128 - zz) as u128) as i64;
    let (ca, cb) = sample_circle(rng, rad);
    proof {
        assert(ca * ca + cb * cb + z * z >= 4294311935) by (nonlinear_arith)
            requires
                ca * ca + cb * cb >= rad * rad - 524288,
                SCALE_SQ as int - z * z < (rad + 1) * (rad + 1),
                0 <= rad <= 65536,
                SCALE_SQ as int == 4294967296,
        ;
        assert(ca * ca + cb * cb + z * z <= 4295229440) by (nonlinear_arith)
            requires
                ca * ca + cb * cb <= rad * rad + 262144,
                rad * rad <= SCALE_SQ as int - z * z,
                SCALE_SQ as int == 4294967296,
        ;
        lemma_dot_comm(nn@, v1@);
        lemma_dot_comm(nn@, v2@);
        lemma_combo_norm2(v1@, v2@, nn@, ca as int, cb as int, z as int);
        lemma_combo_cosine(v1@, v2@, nn@, ca as int, cb as int, z as int);
        lemma_abs_mul_bound(ca as int, v1@.x, 65536, 65536);
        lemma_abs_mul_bound(ca as int, v1@.y, 65536, 65536);
        lemma_abs_mul_bound(ca as int, v1@.z, 65536, 65536);
        lemma_abs_mul_bound(cb as int, v2@.x, 65536, 65536);
        lemma_abs_mul_bound(cb as int, v2@.y, 65536, 65536);
        lemma_abs_mul_bound(cb as int, v2@.z, 65536, 65536);
        lemma_abs_mul_bound(z as int, nn@.x, 65536, 65536);
        lemma_abs_mul_bound(z as int, nn@.y, 65536, 65536);
        lemma_abs_mul_bound(z as int, nn@.z, 65536, 65536);
    }
    let wx: i128 = (ca as i128) * (v1.x as i128) + (cb as i128) * (v2.x as i128) + (z as i128) * (
    nn.x as i128);
    let wy: i128 = (ca as i128) * (v1.y as i128) + (cb as i128) * (v2.y as i128) + (z as i128) * (
    nn.y as i128);
    let wz: i128 = (ca as i128) * (v1.z as i128) + (cb as i128) * (v2.z as i128) + (z as i128) * (
    nn.z as i128);
    proof {
        assert(Vec3 { x: wx as int, y: wy as int, z: wz as int } == v_combo(
            v1@,
            v2@,
            nn@,
            ca as int,
            cb as int,
            z as int,
        ));
    }
    unit_from_wide(wx, wy, wz)
}

/// A uniform-hemisphere sample around `axis`: the cosine itself is uniform
/// on `[0, 1)` (uniform height is uniform area on the sphere).  Returns the
/// direction and the raw cosine, whose doubled value weights the
/// contribution.
pub fn sample_uniform(rng: &mut rand::rngs::ThreadRng, axis: Vector) -> (r: (Vector, i64))
    requires
        is_unit(axis@),
        v_bounded(axis@, SCALE as int),
    ensures
        is_unit(r.0@),
        v_bounded(r.0@, SCALE as int),
        0 <= r.1 < SCALE,
        abs_i(v_dot(r.0@, normalise_spec(axis@)) - r.1 * (SCALE as int)) <= COS_TOL as int,
{
    let z: i64 = rand_below(rng, SCALE);
    let dir: Vector = direction_with_cosine(rng, axis, z);
    (dir, z)
}

/// A cosine-weighted hemisphere sample around `axis`: the cosine follows a
/// square-root law (the rounded-down root of a uniform draw on the squared
/// range), giving density proportional to the cosine.
pub fn sample_cosine(rng: &mut rand::rngs::ThreadRng, axis: Vector) -> (dir: Vector)
    requires
        is_unit(axis@),
        v_bounded(axis@, SCALE as int),
    ensures
        is_unit(dir@),
        v_bounded(dir@, SCALE as int),
        v_dot(dir@, normalise_spec(axis@)) >= -(COS_TOL as int),
{
    let q: i64 = rand_below(rng, SCALE_SQ);
    proof {
        lemma_sqrt_floor(q as int);
        lemma_sqrt_below(q as int, SCALE as int);
    }
    let z: i64 = isqrt_u128(q as u128) as i64;
    direction_with_cosine(rng, axis, z)
}

/// A sample uniform over the spherical cap around `axis` with cosine at
/// least `cmax / SCALE`: direct sampling of the solid angle a light
/// subtends.
pub fn sample_cap(rng: &mut rand::rngs::ThreadRng, axis: Vector, cmax: i64) -> (dir: Vector)
    requires
        is_unit(axis@),
        v_bounded(axis@, SCALE as int),
        0 <= cmax <= SCALE,
    ensures
        is_unit(dir@),
        v_bounded(dir@, SCALE as int),
        v_dot(dir@, normalise_spec(axis@)) >= cmax * (SCALE as int) - COS_TOL as int,
{
    let z: i64 = cmax + rand_below(rng, SCALE - cmax + 1);
    direction_with_cosine(rng, axis, z)
}

/// The cosine law behind `direction_with_cosine`: normalising the
/// combination `ca u1 + cb u2 + z u3` of a near-orthonormal triple, with
/// coefficients of squared sum close to `SCALE^2`, yields a vector whose
/// raw dot product with `u3` is `z * SCALE` within `COS_TOL`.
proof fn lemma_combo_cosine(u1: Vec3, u2: Vec3, u3: Vec3, ca: int, cb: int, z: int)
    requires
        is_unit(u1),
        is_unit(u2),
        is_unit(u3),
        abs_i(v_dot(u1, u2)) <= FRAME_DOT_TOL as int,
        abs_i(v_dot(u3, u1)) <= FRAME_DOT_TOL as int,
        abs_i(v_dot(u3, u2)) <= FRAME_DOT_TOL as int,
        abs_i(ca) <= SCALE as int,
        abs_i(cb) <= SCALE as int,
        0 <= z <= SCALE as int,
        4294311935 <= ca * ca + cb * cb + z * z,
        ca * ca + cb * cb + z * z <= 4295229440,
    ensures
        abs_i(v_dot(normalise_spec(v_combo(u1, u2, u3, ca, cb, z)), u3) - z * (SCALE as int))
            <= COS_TOL as int,
{
    let w: Vec3 = v_combo(u1, u2, u3, ca, cb, z);
    let cc: int = ca * ca + cb * cb + z * z;
    lemma_dot_comm(u3, u1);
    lemma_dot_comm(u3, u2);
    // the squared norm of the combination is close to SCALE^4 ...
    lemma_combo_norm2_range(u1, u2, u3, ca, cb, z);
    let nw: int = norm2_v(w);
    assert(nw >= 18438396150250973480 && nw <= 18453404325207080960);
    // ... so its rounded-down norm is close to SCALE^2
    lemma_sqrt_floor(nw);
    let mw: int = sqrt_floor(nw);
    assert(mw >= 4293990000) by (nonlinear_arith)
        requires
            nw >= 18438396150250973480,
            nw < (mw + 1) * (mw + 1),
            mw >= 0,
    ;
    assert(mw <= 4295799999) by (nonlinear_arith)
        requires
            mw * mw <= nw,
            nw <= 18453404325207080960,
            mw >= 0,
    ;
    // the raw dot of the combination with u3 is z SCALE^2 within 3 SCALE tol
    lemma_combo_dot(u1, u2, u3, ca, cb, z, u3);
    let n3: int = norm2_v(u3);
    lemma_abs_mul_bound(ca, v_dot(u1, u3), 65536, 429496);
    lemma_abs_mul_bound(cb, v_dot(u2, u3), 65536, 429496);
    assert(z * n3 - z * 4294967296 == z * (n3 - 4294967296)) by (nonlinear_arith);
    lemma_abs_mul_bound(z, n3 - 4294967296, 65536, 429496);
    let e1: int = v_dot(w, u3) - z * 4294967296;
    assert(abs_i(e1) <= 84442349568);
    // transferring through the normalisation costs sum_abs(u3) per norm unit
    lemma_dot_round(u3, v_scale_int(w, 65536), mw);
    lemma_dot_scale(u3, w, 65536);
    lemma_unit_bounds(u3);
    let x: int = v_dot(u3, normalise_spec(w));
    assert(normalise_spec(w) == v_tdiv(v_scale_int(w, 65536), mw));
    let e2: int = mw * x - 65536 * v_dot(u3, w);
    assert(abs_i(e2) <= mw * sum_abs(u3));
    assert(mw * sum_abs(u3) <= mw * 113528) by (nonlinear_arith)
        requires
            sum_abs(u3) <= 113528,
            mw >= 0,
    ;
    lemma_dot_comm(u3, w);
    assert(mw * x == z * 281474976710656 + 65536 * e1 + e2);
    // replace z SCALE^3 by (z SCALE) mw, at a cost of |SCALE^2 - mw|
    let dm: int = 4294967296 - mw;
    assert((z * 65536) * mw == (z * 65536) * 4294967296 - (z * 65536) * dm) by (nonlinear_arith)
        requires
            dm == 4294967296 - mw,
    ;
    lemma_abs_mul_bound(z * 65536, dm, 4294967296, 977296);
    assert(mw * x - (z * 65536) * mw == (z * 65536) * dm + 65536 * e1 + e2);
    assert(abs_i(mw * x - (z * 65536) * mw) <= 10219161762200064);
    assert(mw * x - (z * 65536) * mw == mw * (x - z * 65536)) by (nonlinear_arith);
    assert(abs_i(x - z * 65536) <= 4194304) by (nonlinear_arith)
        requires
            abs_i(mw * (x - z * 65536)) <= 10219161762200064,
            mw >= 4293990000,
            abs_i(x - z * 65536) == if x - z * 65536 >= 0 { x - z * 65536 } else { -(x - z
                * 65536) },
            abs_i(mw * (x - z * 65536)) == if mw * (x - z * 65536) >= 0 { mw * (x - z * 65536) } else { -(mw * (x - z * 65536)) },
    ;
    lemma_dot_comm(normalise_spec(w), u3);
}

} // verus!
