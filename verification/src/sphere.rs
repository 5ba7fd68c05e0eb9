//! The emissive sphere and ray–sphere intersection.
//!
//! The sphere is the scene's sole light source: a hit terminates the path
//! with the sphere's fixed colour.  Intersection is the classic quadratic
//! for a unit direction; the contract is the exact integer computation.
//! Only the smaller root is ever returned: a ray whose origin lies inside
//! the sphere reports no hit — a deliberate, documented limitation (the
//! light is never traced from within).  One boundary nuance: within about
//! two raw quanta inside the surface the truncated smaller root is still
//! zero rather than negative, so a zero-distance hit is reported there, as
//! rounding at the surface would also have it.

use crate::color::{color_in_range, Color};
use crate::fixed::{isqrt_u128, lemma_abs_mul_bound, lemma_sqrt_floor, sqrt_floor, tdiv,
    tdiv_i128, SCALE};
use crate::ray::{wf_ray, Ray, SCENE_MAX};
use crate::vector::{
    dot_wide, lemma_dot_wide_bound, lemma_scaled_tdiv_fits, lemma_sqrt_below, norm2_v, v_dot,
    v_sub, Vector,
};
use vstd::prelude::*;

verus! {

/// The light sphere: centre, radius and the constant radiance it emits.
#[derive(Clone, Copy, Debug, PartialEq, Eq, Structural)]
pub struct Sphere {
    pub position: Vector,
    pub radius: i64,
    pub color: Color,
}

/// A sphere the tracer accepts: in-scene centre, positive in-scene radius,
/// valid radiance.
pub open spec fn wf_sphere(s: Sphere) -> bool {
    crate::vector::v_bounded(s.position@, SCENE_MAX as int) && 0 < s.radius <= SCENE_MAX
        && color_in_range(s.color)
}

/// Raw dot product of the origin-to-centre offset with the ray direction
/// (half the quadratic's linear coefficient).
pub open spec fn sphere_b(s: Sphere, ray: Ray) -> int {
    v_dot(v_sub(ray.origin@, s.position@), ray.direction@)
}

/// The quadratic's constant coefficient: squared distance to the centre
/// minus the squared radius (raw scale `SCALE * SCALE`).
pub open spec fn sphere_c(s: Sphere, ray: Ray) -> int {
    norm2_v(v_sub(ray.origin@, s.position@)) - s.radius * s.radius
}

/// The discriminant, scaled so that its square root is a raw distance times
/// `SCALE`.
pub open spec fn sphere_disc(s: Sphere, ray: Ray) -> int {
    sphere_b(s, ray) * sphere_b(s, ray) - sphere_c(s, ray) * ((SCALE as int) * (SCALE as int))
}

/// The full intersection function: `None` when the discriminant is negative
/// or the smaller root lies behind the origin, else the fixed-point distance
/// to the smaller root.
pub open spec fn sphere_intersect(s: Sphere, ray: Ray) -> Option<i64> {
    if sphere_disc(s, ray) < 0 {
        None
    } else if tdiv(-sphere_b(s, ray) - sqrt_floor(sphere_disc(s, ray)), SCALE as int) < 0 {
        None
    } else {
        Some(tdiv(-sphere_b(s, ray) - sqrt_floor(sphere_disc(s, ray)), SCALE as int) as i64)
    }
}

impl Sphere {
    /// Distance to the sphere along the ray, if the smaller quadratic root
    /// is in front of the origin: the exact integer mirror of
    /// `sphere_intersect`.
    pub fn intersect(self, ray: Ray) -> (res: Option<i64>)
        requires
            wf_sphere(self),
            wf_ray(ray),
        ensures
            res == sphere_intersect(self, ray),
            res is Some ==> res->Some_0 >= 0,
    {
        let ro: Vector = ray.origin.sub(self.position);
        assert(crate::vector::v_bounded(ro@, 268435456));
        let b: i128 = dot_wide(ro, ray.direction);
        let n2: i128 = dot_wide(ro, ro);
        proof {
            lemma_dot_wide_bound(ro@, ray.direction@, 268435456, 65536);
            lemma_dot_wide_bound(ro@, ro@, 268435456, 268435456);
            lemma_abs_mul_bound(self.radius as int, self.radius as int, SCENE_MAX as int,
                SCENE_MAX as int);
        }
        let c: i128 = n2 - (self.radius as i128) * (self.radius as i128);
        proof {
            lemma_abs_mul_bound(b as int, b as int, 52776558133248, 52776558133248);
            lemma_abs_mul_bound(
                c as int,
                (SCALE as int) * (SCALE as int),
                3 * (268435456int * 268435456) + 67108864 * 67108864,
                4294967296,
            );
        }
        let disc: i128 = b * b - c * ((SCALE as i128) * (SCALE as i128));
        if disc < 0 {
            return None;
        }
        proof {
            lemma_sqrt_floor(disc as int);
            lemma_sqrt_below(disc as int, 0x1_0000_0000_0000_0000);
        }
        let sq: i128 = isqrt_u128(disc as u128) as i128;
        proof {
            lemma_scaled_tdiv_fits(-b - sq, 52776558133248int + 0x1_0000_0000_0000_0000);
        }
        let dist: i128 = tdiv_i128(-b - sq, SCALE as i128);
        if dist < 0 {
            return None;
        }
        Some(dist as i64)
    }
}

} // verus!
