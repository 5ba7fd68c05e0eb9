//! The scene and the light-transport estimator.
//!
//! A scene owns the triangle collection, the single sphere light, and the
//! sampling strategy fixed for the render.  `trace_ray` resolves the
//! nearest hit by a linear scan (no acceleration structure, by design) and
//! either terminates — black on a miss, the sphere's colour on a light hit,
//! black on a diffuse hit with no path budget left — or recurses once
//! through `light_out`, which draws a direction under the active strategy,
//! traces it at one less depth, and weights the incoming flux.
//!
//! The estimator's contract pins every deterministic part: which hit wins,
//! the terminal colours, the zero-budget cutoff, the radiance range, and
//! that a scene of monochrome materials and light yields monochrome
//! radiance.  What a single stochastic sample returns on a diffuse bounce
//! is, by nature, not a function of the inputs.

use crate::color::{color_in_range, is_mono, Color};
use crate::fixed::{abs_i, isqrt_u128, lemma_abs_mul_bound, lemma_sqrt_floor, lemma_tdiv,
    sqrt_floor, tdiv, tdiv_i128, SCALE, SCALE_SQ};
use crate::ray::{wf_ray, Ray, SCENE_MAX, T_MAX};
use crate::rng::{fresh_rng, rand_below};
use crate::sampling::{sample_cap, sample_cosine, sample_uniform, SamplingStrategy};
use crate::sphere::{sphere_intersect, wf_sphere, Sphere};
use crate::surface_element::{wf_surface, SurfaceElement};
use crate::triangle::{tri_intersect, wf_triangle, Triangle};
use crate::vector::{
    dot_wide, is_unit, lemma_dot_wide_bound, lemma_norm2_nonneg, lemma_sqrt_below, norm2_v,
    Vector, MIN_NORM2,
};
use vstd::prelude::*;

verus! {

/// The scene: triangles, the one sphere light, and the sampling strategy.
/// Built once before rendering; read-only while tracing.
#[derive(Clone, Debug)]
pub struct Scene {
    pub triangles: Vec<Triangle>,
    pub sphere: Sphere,
    pub strategy: SamplingStrategy,
}

/// A scene the tracer accepts: a well-formed sphere and only well-formed
/// (in-bounds, non-degenerate) triangles.
pub open spec fn wf_scene(s: &Scene) -> bool {
    wf_sphere(s.sphere) && forall|i: int|
        0 <= i < s.triangles@.len() ==> wf_triangle(#[trigger] s.triangles@[i])
}

/// A monochrome scene: the light's colour and every albedo have equal
/// channels.
pub open spec fn scene_mono(s: &Scene) -> bool {
    is_mono(s.sphere.color) && forall|i: int|
        0 <= i < s.triangles@.len() ==> is_mono(
            #[trigger] s.triangles@[i].material.diffuse_color,
        )
}

/// The nearest triangle hit over a prefix of the collection, keeping the
/// earliest of equals (the scan replaces only on a strictly smaller
/// distance).
pub open spec fn scan_spec(ts: Seq<Triangle>, ray: Ray) -> Option<(i64, SurfaceElement)>
    decreases ts.len(),
{
    if ts.len() == 0 {
        None
    } else {
        let prev = scan_spec(ts.drop_last(), ray);
        match tri_intersect(ts.last(), ray) {
            None => prev,
            Some((t, se)) => match prev {
                None => Some((t, se)),
                Some((tp, sep)) => if t < tp {
                    Some((t, se))
                } else {
                    Some((tp, sep))
                },
            },
        }
    }
}

/// What `trace_ray` promises about its result: the deterministic part of
/// the estimator.  A miss is black; a sphere hit (also at an exact distance
/// tie) is the sphere's colour; a triangle hit with no budget left is
/// black; every result is valid radiance; and a monochrome scene yields
/// monochrome radiance.
pub open spec fn trace_post(s: &Scene, ray: Ray, recurse: i32, r: Color) -> bool {
    let th = scan_spec(s.triangles@, ray);
    let sh = sphere_intersect(s.sphere, ray);
    &&& color_in_range(r)
    &&& (th is None && sh is None ==> r == (Color { r: 0, g: 0, b: 0 }))
    &&& (th is None && sh is Some ==> r == s.sphere.color)
    &&& (th is Some && sh is Some && th->Some_0.0 >= sh->Some_0 ==> r == s.sphere.color)
    &&& (th is Some && (sh is None || th->Some_0.0 < sh->Some_0) && recurse == 0 ==> r == (Color {
        r: 0,
        g: 0,
        b: 0,
    }))
    &&& (scene_mono(s) ==> is_mono(r))
}

impl Scene {
    /// The nearest triangle hit along the ray, by linear scan.
    pub fn scan_triangles(&self, ray: Ray) -> (res: Option<(i64, SurfaceElement)>)
        requires
            wf_scene(self),
            wf_ray(ray),
        ensures
            res == scan_spec(self.triangles@, ray),
            res is Some ==> {
                let (t, se) = res->Some_0;
                &&& wf_surface(se)
                &&& 0 <= t < T_MAX
                &&& exists|i: int|
                    0 <= i < self.triangles@.len() && res == tri_intersect(
                        #[trigger] self.triangles@[i],
                        ray,
                    )
            },
    {
        let mut best: Option<(i64, SurfaceElement)> = None;
        let mut idx: usize = 0;
        while idx < self.triangles.len()
            invariant
                wf_scene(self),
                wf_ray(ray),
                idx <= self.triangles@.len(),
                best == scan_spec(self.triangles@.take(idx as int), ray),
                best is Some ==> {
                    let (t, se) = best->Some_0;
                    &&& wf_surface(se)
                    &&& 0 <= t < T_MAX
                    &&& exists|i: int|
                        0 <= i < self.triangles@.len() && best == tri_intersect(
                            #[trigger] self.triangles@[i],
                            ray,
                        )
                },
            decreases self.triangles@.len() - idx,
        {
            let hit = self.triangles[idx].intersect(ray);
            proof {
                assert(self.triangles@.take(idx + 1).drop_last() =~= self.triangles@.take(
                    idx as int,
                ));
                assert(self.triangles@.take(idx + 1).last() == self.triangles@[idx as int]);
            }
            match hit {
                None => {},
                Some((t, se)) => {
                    match best {
                        None => {
                            best = Some((t, se));
                        },
                        Some((tb, _)) => {
                            if t < tb {
                                best = Some((t, se));
                            }
                        },
                    }
                },
            }
            idx = idx + 1;
        }
        proof {
            assert(self.triangles@.take(self.triangles@.len() as int) =~= self.triangles@);
        }
        best
    }

    /// Radiance arriving along the ray: black on a miss, the sphere's fixed
    /// colour on a light hit, and one stochastic bounce on a diffuse hit.
    pub fn trace_ray(&self, ray: Ray, recurse: i32) -> (r: Color)
        requires
            wf_scene(self),
            wf_ray(ray),
            recurse >= 0,
        ensures
            trace_post(self, ray, recurse, r),
    {
        let mut rng = fresh_rng();
        self.trace_ray_rng(ray, recurse, &mut rng)
    }

    /// Light leaving the surface element toward `_direction_out`, estimated
    /// by one sample of the active strategy.  The outgoing direction does
    /// not enter the estimate — a diffuse surface emits isotropically — but
    /// it belongs to the query, and a later non-Lambertian material would
    /// read it.
    pub fn light_out(&self, surface_element: SurfaceElement, _direction_out: Vector, recurse: i32)
        -> (r: Color)
        requires
            wf_scene(self),
            wf_surface(surface_element),
            is_unit(_direction_out@),
            recurse >= 0,
        ensures
            color_in_range(r),
            recurse == 0 ==> r == (Color { r: 0, g: 0, b: 0 }),
            scene_mono(self) && is_mono(surface_element.material.diffuse_color) ==> is_mono(r),
    {
        let mut rng = fresh_rng();
        self.light_out_rng(surface_element, recurse, &mut rng)
    }

    /// `trace_ray` against a caller-supplied generator.
    fn trace_ray_rng(&self, ray: Ray, recurse: i32, rng: &mut rand::rngs::ThreadRng) -> (r: Color)
        requires
            wf_scene(self),
            wf_ray(ray),
            recurse >= 0,
        ensures
            trace_post(self, ray, recurse, r),
        decreases recurse, 2int,
    {
        let triangle_hit = self.scan_triangles(ray);
        let sphere_hit = self.sphere.intersect(ray);
        match (triangle_hit, sphere_hit) {
            (None, None) => Color::black(),
            (Some((_, surface_element)), None) => {
                proof {
                    lemma_hit_material_mono(self, ray);
                }
                self.light_out_rng(surface_element, recurse, rng)
            },
            (None, Some(_)) => self.sphere.color,
            (Some((triangle_depth, surface_element)), Some(sphere_depth)) => {
                if triangle_depth < sphere_depth {
                    proof {
                        lemma_hit_material_mono(self, ray);
                    }
                    self.light_out_rng(surface_element, recurse, rng)
                } else {
                    self.sphere.color
                }
            },
        }
    }

    /// One bounce under the active strategy: draw a direction, trace it at
    /// one less depth, and weight the incoming flux by the albedo and the
    /// strategy's compensation factor.
    fn light_out_rng(&self, surface_element: SurfaceElement, recurse: i32, rng: &mut
        rand::rngs::ThreadRng) -> (r: Color)
        requires
            wf_scene(self),
            wf_surface(surface_element),
            recurse >= 0,
        ensures
            color_in_range(r),
            recurse == 0 ==> r == (Color { r: 0, g: 0, b: 0 }),
            scene_mono(self) && is_mono(surface_element.material.diffuse_color) ==> is_mono(r),
        decreases recurse, 1int,
    {
        if recurse == 0 {
            return Color::black();
        }
        let albedo: Color = surface_element.material.diffuse_color;
        match self.strategy {
            SamplingStrategy::Uniform => {
                let (direction_in, z) = sample_uniform(rng, surface_element.normal);
                let ray = Ray { origin: surface_element.position, direction: direction_in };
                let flux_in = self.trace_ray_rng(ray, recurse - 1, rng);
                // the 2 cos factor compensating the uniform density
                flux_in.mul(albedo).scale_clamped(2 * z)
            },
            SamplingStrategy::CosineWeighted => {
                let direction_in = sample_cosine(rng, surface_element.normal);
                let ray = Ray { origin: surface_element.position, direction: direction_in };
                let flux_in = self.trace_ray_rng(ray, recurse - 1, rng);
                // the cosine cancels against the sampling density
                flux_in.mul(albedo)
            },
            SamplingStrategy::LightAware => {
                self.light_out_aware(surface_element, recurse, rng)
            },
        }
    }

    /// The light-aware strategy: an even mixture of cosine sampling and
    /// direct sampling of the cap the sphere subtends, weighted by the
    /// balance heuristic so the single-bounce estimate stays unbiased in
    /// expectation.  Falls back to pure cosine sampling when the light's
    /// centre is too close or below the horizon.
    fn light_out_aware(&self, surface_element: SurfaceElement, recurse: i32, rng: &mut
        rand::rngs::ThreadRng) -> (r: Color)
        requires
            wf_scene(self),
            wf_surface(surface_element),
            recurse >= 1,
        ensures
            color_in_range(r),
            scene_mono(self) && is_mono(surface_element.material.diffuse_color) ==> is_mono(r),
        decreases recurse, 0int,
    {
        let albedo: Color = surface_element.material.diffuse_color;
        let to_light: Vector = self.sphere.position.sub(surface_element.position);
        proof {
            lemma_dot_wide_bound(to_light@, to_light@, 268435456, 268435456);
        }
        let d2: i128 = dot_wide(to_light, to_light);
        let dist: i64 = to_light.norm();
        proof {
            lemma_sqrt_floor(norm2_v(to_light@));
            lemma_norm2_nonneg(to_light@);
            lemma_sqrt_below(norm2_v(to_light@), 500000000);
        }
        if d2 < MIN_NORM2 as i128 || dist <= self.sphere.radius {
            // inside or touching the light, or too close to aim: plain
            // cosine sampling
            let direction_in = sample_cosine(rng, surface_element.normal);
            let ray = Ray { origin: surface_element.position, direction: direction_in };
            let flux_in = self.trace_ray_rng(ray, recurse - 1, rng);
            return flux_in.mul(albedo);
        }
        let direction_sphere: Vector = to_light.normalised();
        let facing: i128 = dot_wide(direction_sphere, surface_element.normal);
        if facing <= 0 {
            // light centre below the horizon: plain cosine sampling
            let direction_in = sample_cosine(rng, surface_element.normal);
            let ray = Ray { origin: surface_element.position, direction: direction_in };
            let flux_in = self.trace_ray_rng(ray, recurse - 1, rng);
            return flux_in.mul(albedo);
        }
        // cosine of the cap's half-angle: sqrt(dist^2 - radius^2) / dist
        proof {
            lemma_abs_mul_bound(dist as int, dist as int, 500000000, 500000000);
            lemma_abs_mul_bound(
                self.sphere.radius as int,
                self.sphere.radius as int,
                SCENE_MAX as int,
                SCENE_MAX as int,
            );
            assert((self.sphere.radius as int) * (self.sphere.radius as int) < (dist as int) * (
            dist as int)) by (nonlinear_arith)
                requires
                    0 < self.sphere.radius < dist,
            ;
        }
        let gap: i128 = (dist as i128) * (dist as i128) - (self.sphere.radius as i128) * (
        self.sphere.radius as i128);
        proof {
            lemma_sqrt_floor(gap as int);
            assert((self.sphere.radius as int) * (self.sphere.radius as int) > 0)
                by (nonlinear_arith)
                requires
                    self.sphere.radius >= 1,
            ;
            lemma_sqrt_below(gap as int, dist as int);
            lemma_abs_mul_bound(sqrt_floor(gap as int), SCALE as int, dist as int, SCALE as int);
        }
        let sq: i128 = isqrt_u128(gap as u128) as i128;
        let cmax_w: i128 = tdiv_i128(sq * (SCALE as i128), dist as i128);
        proof {
            lemma_tdiv((sq as int) * (SCALE as int), dist as int);
            assert((dist as int) * abs_i(tdiv((sq as int) * (SCALE as int), dist as int)) <= (
            dist as int) * (SCALE as int)) by (nonlinear_arith)
                requires
                    (dist as int) * abs_i(tdiv((sq as int) * (SCALE as int), dist as int)) <= abs_i(
                        (sq as int) * (SCALE as int),
                    ),
                    abs_i((sq as int) * (SCALE as int)) <= (dist as int) * (SCALE as int),
            ;
            assert(abs_i(tdiv((sq as int) * (SCALE as int), dist as int)) <= SCALE as int)
                by (nonlinear_arith)
                requires
                    (dist as int) * abs_i(tdiv((sq as int) * (SCALE as int), dist as int)) <= (
                    dist as int) * (SCALE as int),
                    dist > 0,
            ;
        }
        let cmax: i64 = cmax_w as i64;
        // an even mixture: half the samples aim at the cap
        let coin: i64 = rand_below(rng, 2);
        let direction_in: Vector = if coin == 0 {
            sample_cap(rng, direction_sphere, cmax)
        } else {
            sample_cosine(rng, surface_element.normal)
        };
        let zn_w: i128 = dot_wide(direction_in, surface_element.normal);
        if zn_w <= 0 {
            // a cap sample below the surface's horizon contributes nothing
            return Color::black();
        }
        proof {
            lemma_dot_wide_bound(direction_in@, surface_element.normal@, SCALE as int,
                SCALE as int);
            crate::vector::lemma_scaled_tdiv_fits(zn_w as int, 3 * (65536int * 65536));
            lemma_tdiv(zn_w as int, SCALE as int);
        }
        let zn_raw: i128 = tdiv_i128(zn_w, SCALE as i128);
        let zn: i64 = if zn_raw > SCALE as i128 {
            SCALE
        } else {
            zn_raw as i64
        };
        assert(0 <= zn <= SCALE);
        // balance-heuristic weight, relative to the cosine density:
        // inside the cap  cos / (cos/2 + 1/(4 (1 - cmax)))
        // outside         cos / (cos/2)              =  2
        let in_cap: bool = {
            proof {
                lemma_abs_mul_bound(cmax as int, SCALE as int, SCALE as int, SCALE as int);
            }
            let toward: i128 = dot_wide(direction_in, direction_sphere);
            toward > (cmax as i128) * (SCALE as i128)
        };
        let weight: i64 = if in_cap {
            let u: i128 = (SCALE - cmax) as i128;
            proof {
                lemma_abs_mul_bound(u as int, zn as int, 65536, 65536);
            }
            let uz: i128 = u * (zn as i128);
            proof {
                lemma_weight_bounds(uz as int);
                lemma_abs_mul_bound(4 * (uz as int), SCALE as int, 17179869184, 65536);
            }
            let num: i128 = (4 * uz) * (SCALE as i128);
            let den: i128 = 2 * uz + (SCALE_SQ as i128);
            tdiv_i128(num, den) as i64
        } else {
            2 * SCALE
        };
        assert(0 <= weight <= 2 * SCALE);
        let ray = Ray { origin: surface_element.position, direction: direction_in };
        let flux_in = self.trace_ray_rng(ray, recurse - 1, rng);
        flux_in.mul(albedo).scale_clamped(weight)
    }
}

/// The mixture weight `4 uz SCALE / (2 uz + SCALE^2)` is within
/// `[0, 2 SCALE]` for `uz` in `[0, SCALE^2]`.
proof fn lemma_weight_bounds(uz: int)
    requires
        0 <= uz <= SCALE_SQ as int,
    ensures
        0 <= tdiv((4 * uz) * (SCALE as int), 2 * uz + (SCALE_SQ as int)) <= 2 * SCALE as int,
        2 * uz + (SCALE_SQ as int) > 0,
{
    let num: int = (4 * uz) * (SCALE as int);
    let den: int = 2 * uz + (SCALE_SQ as int);
    assert(num >= 0 && num < den * (2 * SCALE as int)) by (nonlinear_arith)
        requires
            num == (4 * uz) * (SCALE as int),
            den == 2 * uz + (SCALE_SQ as int),
            0 <= uz,
    ;
    lemma_tdiv(num, den);
    let q: int = tdiv(num, den);
    assert(q <= 2 * SCALE as int) by (nonlinear_arith)
        requires
            den * abs_i(q) <= abs_i(num),
            abs_i(num) == num,
            num < den * (2 * SCALE as int),
            den > 0,
            abs_i(q) == if q >= 0 { q } else { -q },
            q >= 0,
    ;
}

/// The scan law: the linear scan really resolves the nearest hit.  A `None`
/// means no triangle is hit at all; a `Some` is the hit of one of the
/// triangles, and no triangle is hit at a strictly smaller distance — so
/// the reported distance does not depend on the collection's order.
pub proof fn lemma_scan_nearest(ts: Seq<Triangle>, ray: Ray)
    ensures
        scan_spec(ts, ray) is None ==> forall|i: int|
            0 <= i < ts.len() ==> tri_intersect(#[trigger] ts[i], ray) is None,
        scan_spec(ts, ray) is Some ==> exists|i: int|
            0 <= i < ts.len() && scan_spec(ts, ray) == tri_intersect(#[trigger] ts[i], ray),
        scan_spec(ts, ray) is Some ==> forall|i: int|
            0 <= i < ts.len() && tri_intersect(#[trigger] ts[i], ray) is Some
                ==> scan_spec(ts, ray)->Some_0.0 <= tri_intersect(ts[i], ray)->Some_0.0,
    decreases ts.len(),
{
    if ts.len() > 0 {
        lemma_scan_nearest(ts.drop_last(), ray);
        let prev = scan_spec(ts.drop_last(), ray);
        assert forall|i: int| 0 <= i < ts.len() - 1 implies #[trigger] ts[i]
            == ts.drop_last()[i] by {}
        if scan_spec(ts, ray) is Some {
            if prev is Some {
                assert(0 <= ts.len() - 1 < ts.len());
            }
            assert(ts[ts.len() - 1] == ts.last());
        }
    }
}

/// In a monochrome scene, any triangle hit carries a monochrome albedo:
/// every surface element the scan returns belongs to some triangle of the
/// collection.
proof fn lemma_hit_material_mono(s: &Scene, ray: Ray)
    requires
        scan_spec(s.triangles@, ray) is Some ==> exists|i: int|
            0 <= i < s.triangles@.len() && scan_spec(s.triangles@, ray) == tri_intersect(
                #[trigger] s.triangles@[i],
                ray,
            ),
    ensures
        scene_mono(s) && scan_spec(s.triangles@, ray) is Some ==> is_mono(
            scan_spec(s.triangles@, ray)->Some_0.1.material.diffuse_color,
        ),
{
    if scene_mono(s) && scan_spec(s.triangles@, ray) is Some {
        let i = choose|i: int|
            0 <= i < s.triangles@.len() && scan_spec(s.triangles@, ray) == tri_intersect(
                s.triangles@[i],
                ray,
            );
        assert(is_mono(s.triangles@[i].material.diffuse_color));
    }
}

} // verus!
