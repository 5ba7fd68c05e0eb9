//! Triangles and ray–triangle intersection.
//!
//! A triangle is a base point plus two edge vectors; it is one-sided (its
//! normal is the normalised cross product of the edges, and back-facing rays
//! never hit).  The intersection contract is the exact integer computation:
//! plane distance by division of raw dot products, then the 2x2 Gram-matrix
//! solve for the simplex coefficients, accepted when both are non-negative
//! and sum to at most one (the fixed-point quantisation supplies a small
//! tolerance around the simplex bounds).

use crate::fixed::{abs_i, lemma_abs_mul_bound, lemma_tdiv, tdiv, tdiv_i128, SCALE};
use crate::material::{wf_material, Material};
use crate::ray::{wf_ray, Ray, POS_MAX, SCENE_MAX, T_MAX};
use crate::surface_element::{wf_surface, SurfaceElement};
use crate::vector::{
    dot_wide, is_unit, lemma_lagrange, lemma_scaled_tdiv_fits, norm2_v, normalise_spec,
    scale_fixed, unit_from_wide, v_add, v_bounded, v_cross, v_dot, v_neg, v_sub, Vec3, Vector,
    MIN_NORM2,
};
use vstd::arithmetic::div_mod::lemma_div_is_ordered;
use vstd::prelude::*;

verus! {

/// A one-sided triangle: vertices are `base`, `base + v1` and `base + v2`.
#[derive(Clone, Copy, Debug, PartialEq, Eq, Structural)]
pub struct Triangle {
    pub base: Vector,
    pub v1: Vector,
    pub v2: Vector,
    pub material: Material,
}

/// A triangle the tracer accepts: coordinates within the scene bound, a
/// valid material, and enough area that its raw edge cross product can be
/// normalised — a parallelogram area of at least `2^15` raw square units,
/// about eight millionths of a square world unit (the non-degeneracy the
/// scene must establish at construction time).
pub open spec fn wf_triangle(t: Triangle) -> bool {
    v_bounded(t.base@, SCENE_MAX as int) && v_bounded(t.v1@, SCENE_MAX as int) && v_bounded(
        t.v2@,
        SCENE_MAX as int,
    ) && wf_material(t.material) && norm2_v(v_cross(t.v1@, t.v2@)) >= MIN_NORM2 as int
}

/// The unit normal of the triangle: the normalised exact cross product of
/// its edge vectors.
pub open spec fn tri_normal(t: Triangle) -> Vec3 {
    normalise_spec(v_cross(t.v1@, t.v2@))
}

/// Raw dot product of the ray direction with the triangle normal: negative
/// where the ray faces the front side.
pub open spec fn tri_den(t: Triangle, ray: Ray) -> int {
    v_dot(ray.direction@, tri_normal(t))
}

/// Fixed-point distance along the ray to the triangle's plane (meaningful
/// when `tri_den < 0`).
pub open spec fn tri_t_raw(t: Triangle, ray: Ray) -> int {
    tdiv(v_dot(v_sub(ray.origin@, t.base@), tri_normal(t)) * (SCALE as int), -tri_den(t, ray))
}

/// The plane hit point, relative to the triangle's base.
pub open spec fn tri_rip(t: Triangle, ray: Ray) -> Vec3 {
    v_add(v_sub(ray.origin@, t.base@), scale_fixed(ray.direction@, tri_t_raw(t, ray)))
}

/// The scaled determinant of the edge Gram matrix.
pub open spec fn tri_det_s(t: Triangle) -> int {
    tdiv(
        v_dot(t.v1@, t.v1@) * v_dot(t.v2@, t.v2@) - v_dot(t.v1@, t.v2@) * v_dot(t.v1@, t.v2@),
        SCALE as int,
    )
}

/// First simplex coefficient (fixed point: `SCALE` means one).
pub open spec fn tri_c1(t: Triangle, ray: Ray) -> int {
    tdiv(
        v_dot(tri_rip(t, ray), t.v1@) * v_dot(t.v2@, t.v2@) - v_dot(tri_rip(t, ray), t.v2@)
            * v_dot(t.v1@, t.v2@),
        tri_det_s(t),
    )
}

/// Second simplex coefficient.
pub open spec fn tri_c2(t: Triangle, ray: Ray) -> int {
    tdiv(
        v_dot(tri_rip(t, ray), t.v2@) * v_dot(t.v1@, t.v1@) - v_dot(tri_rip(t, ray), t.v1@)
            * v_dot(t.v1@, t.v2@),
        tri_det_s(t),
    )
}

/// The hit position: base plus the simplex combination of the edges.
pub open spec fn tri_position(t: Triangle, ray: Ray) -> Vec3 {
    v_add(
        v_add(t.base@, scale_fixed(t.v1@, tri_c1(t, ray))),
        scale_fixed(t.v2@, tri_c2(t, ray)),
    )
}

/// The full intersection function: `None` for back-facing or parallel rays
/// (non-negative raw `tri_den`), plane hits behind the origin or beyond the
/// horizon `T_MAX`, and plane hits outside the simplex; otherwise the
/// distance and the surface element at the hit.
pub open spec fn tri_intersect(t: Triangle, ray: Ray) -> Option<(i64, SurfaceElement)> {
    if tri_den(t, ray) >= 0 {
        None
    } else if tri_t_raw(t, ray) < 0 || tri_t_raw(t, ray) >= T_MAX as int {
        None
    } else if tri_c1(t, ray) < 0 || tri_c2(t, ray) < 0 || tri_c1(t, ray) + tri_c2(t, ray)
        > SCALE as int {
        None
    } else {
        Some(
            (
                tri_t_raw(t, ray) as i64,
                SurfaceElement {
                    position: Vector {
                        x: tri_position(t, ray).x as i64,
                        y: tri_position(t, ray).y as i64,
                        z: tri_position(t, ray).z as i64,
                    },
                    normal: Vector {
                        x: tri_normal(t).x as i64,
                        y: tri_normal(t).y as i64,
                        z: tri_normal(t).z as i64,
                    },
                    material: t.material,
                },
            ),
        )
    }
}

impl Triangle {
    /// The triangle's unit normal.
    pub fn normal(self) -> (r: Vector)
        requires
            wf_triangle(self),
        ensures
            r@ == tri_normal(self),
            is_unit(r@),
            v_bounded(r@, SCALE as int),
    {
        proof {
            lemma_edge_cross_bounds(self);
        }
        let wx: i128 = (self.v1.y as i128) * (self.v2.z as i128) - (self.v1.z as i128) * (self.v2.y
            as i128);
        let wy: i128 = (self.v1.z as i128) * (self.v2.x as i128) - (self.v1.x as i128) * (self.v2.z
            as i128);
        let wz: i128 = (self.v1.x as i128) * (self.v2.y as i128) - (self.v1.y as i128) * (self.v2.x
            as i128);
        proof {
            assert(Vec3 { x: wx as int, y: wy as int, z: wz as int } == v_cross(
                self.v1@,
                self.v2@,
            ));
        }
        unit_from_wide(wx, wy, wz)
    }

    /// Whether the tracer accepts this triangle: executable form of
    /// `wf_triangle`, for scene construction to reject out-of-bounds or
    /// degenerate geometry up front.
    pub fn is_well_formed(&self) -> (b: bool)
        ensures
            b == wf_triangle(*self),
    {
        let m: &crate::material::Material = &self.material;
        let albedo_ok: bool = 0 <= m.diffuse_color.r && m.diffuse_color.r <= SCALE && 0
            <= m.diffuse_color.g && m.diffuse_color.g <= SCALE && 0 <= m.diffuse_color.b
            && m.diffuse_color.b <= SCALE;
        let bounds_ok: bool = in_scene(self.base) && in_scene(self.v1) && in_scene(self.v2);
        if !(albedo_ok && bounds_ok) {
            return false;
        }
        proof {
            lemma_edge_cross_bounds(*self);
        }
        let wx: i128 = (self.v1.y as i128) * (self.v2.z as i128) - (self.v1.z as i128) * (self.v2.y
            as i128);
        let wy: i128 = (self.v1.z as i128) * (self.v2.x as i128) - (self.v1.x as i128) * (self.v2.z
            as i128);
        let wz: i128 = (self.v1.x as i128) * (self.v2.y as i128) - (self.v1.y as i128) * (self.v2.x
            as i128);
        proof {
            let w: Vec3 = v_cross(self.v1@, self.v2@);
            lemma_abs_mul_bound(w.x, w.x, 9007199254740992, 9007199254740992);
            lemma_abs_mul_bound(w.y, w.y, 9007199254740992, 9007199254740992);
            lemma_abs_mul_bound(w.z, w.z, 9007199254740992, 9007199254740992);
        }
        let n2: i128 = wx * wx + wy * wy + wz * wz;
        n2 >= MIN_NORM2 as i128
    }

    /// Intersect a ray with the triangle: the exact integer mirror of
    /// `tri_intersect`, with a well-formed surface element on a hit.
    pub fn intersect(self, ray: Ray) -> (res: Option<(i64, SurfaceElement)>)
        requires
            wf_triangle(self),
            wf_ray(ray),
        ensures
            res == tri_intersect(self, ray),
            tri_den(self, ray) >= 0 ==> res is None,
            res is Some ==> {
                let (t, se) = res->Some_0;
                &&& wf_surface(se)
                &&& 0 <= t < T_MAX
                &&& se.material == self.material
                &&& se.normal@ == tri_normal(self)
            },
    {
        let n: Vector = self.normal();
        proof {
            crate::vector::lemma_dot_wide_bound(ray.direction@, n@, 65536, 65536);
        }
        let den: i128 = dot_wide(ray.direction, n);
        if den >= 0 {
            return None;
        }
        let ro: Vector = ray.origin.sub(self.base);
        assert(v_bounded(ro@, 268435456));
        let num: i128 = dot_wide(ro, n);
        proof {
            crate::vector::lemma_dot_wide_bound(ro@, n@, 268435456, 65536);
            lemma_abs_mul_bound(num as int, SCALE as int, 52776558133248, 65536);
        }
        let tw: i128 = tdiv_i128(num * (SCALE as i128), -den);
        assert(tw == tri_t_raw(self, ray));
        if tw < 0 || tw >= T_MAX as i128 {
            return None;
        }
        proof {
            lemma_scale_fixed_bound(ray.direction@, tw as int, SCALE as int, T_MAX as int);
        }
        let rip: Vector = ro.add(ray.direction.mul(tw as i64));
        assert(v_bounded(rip@, 68988108800));
        let a1: i128 = dot_wide(rip, self.v1);
        let a2: i128 = dot_wide(rip, self.v2);
        let b11: i128 = dot_wide(self.v1, self.v1);
        let b12: i128 = dot_wide(self.v1, self.v2);
        let b22: i128 = dot_wide(self.v2, self.v2);
        proof {
            crate::vector::lemma_dot_wide_bound(rip@, self.v1@, 68988108800, SCENE_MAX as int);
            crate::vector::lemma_dot_wide_bound(rip@, self.v2@, 68988108800, SCENE_MAX as int);
            crate::vector::lemma_dot_wide_bound(self.v1@, self.v1@, SCENE_MAX as int, SCENE_MAX as int);
            crate::vector::lemma_dot_wide_bound(self.v1@, self.v2@, SCENE_MAX as int, SCENE_MAX as int);
            crate::vector::lemma_dot_wide_bound(self.v2@, self.v2@, SCENE_MAX as int, SCENE_MAX as int);
            lemma_abs_mul_bound(b11 as int, b22 as int, 13510798882111488, 13510798882111488);
            lemma_abs_mul_bound(b12 as int, b12 as int, 13510798882111488, 13510798882111488);
            lemma_det_positive(self);
        }
        let det: i128 = b11 * b22 - b12 * b12;
        let dets: i128 = tdiv_i128(det, SCALE as i128);
        assert(dets == tri_det_s(self) && dets > 0);
        proof {
            lemma_abs_mul_bound(
                a1 as int,
                b22 as int,
                3 * (68988108800int * 67108864),
                13510798882111488,
            );
            lemma_abs_mul_bound(
                a2 as int,
                b12 as int,
                3 * (68988108800int * 67108864),
                13510798882111488,
            );
            lemma_abs_mul_bound(
                a2 as int,
                b11 as int,
                3 * (68988108800int * 67108864),
                13510798882111488,
            );
            lemma_abs_mul_bound(
                a1 as int,
                b12 as int,
                3 * (68988108800int * 67108864),
                13510798882111488,
            );
        }
        let c1: i128 = tdiv_i128(a1 * b22 - a2 * b12, dets);
        let c2: i128 = tdiv_i128(a2 * b11 - a1 * b12, dets);
        assert(c1 == tri_c1(self, ray) && c2 == tri_c2(self, ray));
        if c1 < 0 || c2 < 0 || c1 + c2 > SCALE as i128 {
            return None;
        }
        proof {
            lemma_scale_fixed_bound(self.v1@, c1 as int, SCENE_MAX as int, SCALE as int);
            lemma_scale_fixed_bound(self.v2@, c2 as int, SCENE_MAX as int, SCALE as int);
        }
        let position: Vector = self.base.add(self.v1.mul(c1 as i64)).add(self.v2.mul(c2 as i64));
        assert(v_bounded(position@, POS_MAX as int));
        Some((tw as i64, SurfaceElement { position, normal: n, material: self.material }))
    }
}

/// All three components within the scene bound.
fn in_scene(v: Vector) -> (b: bool)
    ensures
        b == v_bounded(v@, SCENE_MAX as int),
{
    -SCENE_MAX <= v.x && v.x <= SCENE_MAX && -SCENE_MAX <= v.y && v.y <= SCENE_MAX && -SCENE_MAX
        <= v.z && v.z <= SCENE_MAX
}

/// The raw cross product of two in-scene edges is componentwise within
/// `2 * SCENE_MAX^2`, inside the wide range the normaliser accepts.
proof fn lemma_edge_cross_bounds(t: Triangle)
    requires
        v_bounded(t.v1@, SCENE_MAX as int),
        v_bounded(t.v2@, SCENE_MAX as int),
    ensures
        v_bounded(v_cross(t.v1@, t.v2@), 9007199254740992),
        abs_i(t.v1@.y * t.v2@.z) <= 4503599627370496,
        abs_i(t.v1@.z * t.v2@.y) <= 4503599627370496,
        abs_i(t.v1@.z * t.v2@.x) <= 4503599627370496,
        abs_i(t.v1@.x * t.v2@.z) <= 4503599627370496,
        abs_i(t.v1@.x * t.v2@.y) <= 4503599627370496,
        abs_i(t.v1@.y * t.v2@.x) <= 4503599627370496,
{
    let a: Vec3 = t.v1@;
    let b: Vec3 = t.v2@;
    lemma_abs_mul_bound(a.y, b.z, SCENE_MAX as int, SCENE_MAX as int);
    lemma_abs_mul_bound(a.z, b.y, SCENE_MAX as int, SCENE_MAX as int);
    lemma_abs_mul_bound(a.z, b.x, SCENE_MAX as int, SCENE_MAX as int);
    lemma_abs_mul_bound(a.x, b.z, SCENE_MAX as int, SCENE_MAX as int);
    lemma_abs_mul_bound(a.x, b.y, SCENE_MAX as int, SCENE_MAX as int);
    lemma_abs_mul_bound(a.y, b.x, SCENE_MAX as int, SCENE_MAX as int);
}

/// Componentwise bound on a fixed-point scaling.
proof fn lemma_scale_fixed_bound(v: Vec3, k: int, bv: int, bk: int)
    requires
        v_bounded(v, bv),
        abs_i(k) <= bk,
        0 <= bv,
        0 <= bk,
        bv * bk <= 0x7FFF_FFFF_FFFF_FFFF * (SCALE as int),
    ensures
        v_bounded(scale_fixed(v, k), bv * bk / (SCALE as int)),
{
    lemma_abs_mul_bound(v.x, k, bv, bk);
    lemma_abs_mul_bound(v.y, k, bv, bk);
    lemma_abs_mul_bound(v.z, k, bv, bk);
    lemma_scaled_tdiv_fits(v.x * k, bv * bk);
    lemma_scaled_tdiv_fits(v.y * k, bv * bk);
    lemma_scaled_tdiv_fits(v.z * k, bv * bk);
}

/// The Gram determinant of a non-degenerate triangle's edges is the squared
/// norm of their cross product (Lagrange), hence at least `MIN_NORM2`, and
/// its scaled form is positive.
proof fn lemma_det_positive(t: Triangle)
    requires
        wf_triangle(t),
    ensures
        v_dot(t.v1@, t.v1@) * v_dot(t.v2@, t.v2@) - v_dot(t.v1@, t.v2@) * v_dot(t.v1@, t.v2@)
            >= MIN_NORM2 as int,
        tri_det_s(t) > 0,
        tri_det_s(t) >= 16384,
{
    lemma_lagrange(t.v1@, t.v2@);
    let det: int = v_dot(t.v1@, t.v1@) * v_dot(t.v2@, t.v2@) - v_dot(t.v1@, t.v2@) * v_dot(
        t.v1@,
        t.v2@,
    );
    assert(det == norm2_v(v_cross(t.v1@, t.v2@)));
    lemma_tdiv(det, SCALE as int);
    lemma_div_is_ordered(1073741824, det, SCALE as int);
    assert(1073741824int / (SCALE as int) == 16384int);
}

/// One-sidedness of triangles: whenever a ray hits
/// the triangle, the reversed ray — same origin, opposite direction — misses
/// it, because the back-face cull rejects it.
pub proof fn lemma_reversed_ray_misses(t: Triangle, ray: Ray, rev: Ray)
    requires
        rev.origin == ray.origin,
        rev.direction@ == v_neg(ray.direction@),
        tri_intersect(t, ray) is Some,
    ensures
        tri_intersect(t, rev) is None,
{
    let n: Vec3 = tri_normal(t);
    assert(v_dot(v_neg(ray.direction@), n) == -v_dot(ray.direction@, n)) by (nonlinear_arith);
    assert(tri_den(t, rev) >= 0);
}

} // verus!
