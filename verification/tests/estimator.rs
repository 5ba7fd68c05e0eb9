//! Estimator tests: hit resolution, the depth cutoff, randomness ranges,
//! and the statistical behaviour of the sampling strategies against the
//! analytic single-bounce solution for a spherical light at the zenith
//! (hit probability (radius / distance)^2 under cosine weighting).

use pathtracer::color::Color;
use pathtracer::material::Material;
use pathtracer::ray::Ray;
use pathtracer::rng::{fresh_rng, rand_below};
use pathtracer::sampling::{sample_uniform, SamplingStrategy};
use pathtracer::scene::Scene;
use pathtracer::sphere::Sphere;
use pathtracer::surface_element::SurfaceElement;
use pathtracer::triangle::Triangle;
use pathtracer::vector::{dot, Vector};

const S: i64 = 65536;

fn vec3(x: i64, y: i64, z: i64) -> Vector {
    Vector { x, y, z }
}

fn grey(v: i64) -> Material {
    Material {
        diffuse_color: Color { r: v, g: v, b: v },
    }
}

fn floor_triangle(albedo: i64) -> Triangle {
    Triangle {
        base: vec3(-50 * S, -50 * S, 0),
        v1: vec3(100 * S, 0, 0),
        v2: vec3(0, 100 * S, 0),
        material: grey(albedo),
    }
}

/// A sphere light at height `h` above the origin, of radius `r`, colour
/// white.
fn zenith_light(h: i64, r: i64) -> Sphere {
    Sphere {
        position: vec3(0, 0, h),
        radius: r,
        color: Color { r: S, g: S, b: S },
    }
}

fn zenith_scene(strategy: SamplingStrategy, albedo: i64, h: i64, r: i64) -> Scene {
    Scene {
        triangles: vec![floor_triangle(albedo)],
        sphere: zenith_light(h, r),
        strategy,
    }
}

/// A downward ray well to the side of the zenith light.
fn down_ray() -> Ray {
    Ray {
        origin: vec3(10 * S, 0, 10 * S),
        direction: vec3(0, 0, -S),
    }
}

#[test]
fn trace_ray_misses_are_black() {
    let scene = zenith_scene(SamplingStrategy::CosineWeighted, S / 2, 4 * S, 2 * S);
    let away = Ray {
        origin: vec3(0, 0, 20 * S),
        direction: vec3(0, 0, S),
    };
    assert_eq!(scene.trace_ray(away, 5), Color { r: 0, g: 0, b: 0 });
}

#[test]
fn trace_ray_depth_zero_on_diffuse_surface_is_black() {
    for strategy in [
        SamplingStrategy::Uniform,
        SamplingStrategy::CosineWeighted,
        SamplingStrategy::LightAware,
    ] {
        let scene = zenith_scene(strategy, S / 2, 4 * S, 2 * S);
        // the downward ray hits the floor, not the light
        assert_eq!(scene.trace_ray(down_ray(), 0), Color { r: 0, g: 0, b: 0 });
    }
}

#[test]
fn trace_ray_sphere_hit_is_terminal() {
    let scene = zenith_scene(SamplingStrategy::CosineWeighted, S / 2, 4 * S, 2 * S);
    // straight at the light from the side: terminal even at depth 0
    let at_light = Ray {
        origin: vec3(10 * S, 0, 4 * S),
        direction: vec3(-S, 0, 0),
    };
    assert_eq!(scene.trace_ray(at_light, 0), Color { r: S, g: S, b: S });
}

#[test]
fn trace_ray_nearer_hit_wins() {
    // light behind the floor plane, seen from above: the floor wins
    let scene = Scene {
        triangles: vec![floor_triangle(S / 2)],
        sphere: Sphere {
            position: vec3(0, 0, -6 * S),
            radius: 2 * S,
            color: Color { r: S, g: S, b: S },
        },
        strategy: SamplingStrategy::CosineWeighted,
    };
    assert_eq!(scene.trace_ray(down_ray(), 0), Color { r: 0, g: 0, b: 0 });
    // the same geometry from below: only the light is in front
    let from_below = Ray {
        origin: vec3(0, 0, -10 * S),
        direction: vec3(0, 0, S),
    };
    assert_eq!(scene.trace_ray(from_below, 0), Color { r: S, g: S, b: S });
}

#[test]
fn rand_below_stays_in_range_and_varies() {
    let mut rng = fresh_rng();
    let mut seen_low = false;
    let mut seen_high = false;
    for _ in 0..10000 {
        let r = rand_below(&mut rng, 65536);
        assert!(0 <= r && r < 65536);
        if r < 32768 {
            seen_low = true;
        } else {
            seen_high = true;
        }
    }
    assert!(seen_low && seen_high);
}

#[test]
fn sampled_directions_are_unit_and_in_the_hemisphere() {
    let mut rng = fresh_rng();
    let normal = vec3(3 * S / 5, 0, 4 * S / 5);
    for _ in 0..2000 {
        let (dir, z) = sample_uniform(&mut rng, normal);
        assert!(dir.is_normal());
        assert!(0 <= z && z < S);
        // the sampled cosine is along the axis: the actual dot agrees
        // within the frame tolerance plus quantisation
        assert!((dot(dir, normal) - z).abs() <= 32);
    }
}

/// Mean red channel of `light_out` at depth 1 for a straight-up surface
/// element at the origin, over `n` samples; asserts the monochrome symmetry
/// of every sample on the way.
fn mean_bounce(scene: &Scene, n: i64) -> i64 {
    let se = SurfaceElement {
        position: vec3(0, 0, 0),
        normal: vec3(0, 0, S),
        material: scene.triangles[0].material,
    };
    let up = vec3(0, 0, S);
    let mut sum: i64 = 0;
    for _ in 0..n {
        let c = scene.light_out(se, up, 1);
        assert_eq!(c.r, c.g);
        assert_eq!(c.g, c.b);
        sum += c.r;
    }
    sum / n
}

#[test]
fn cosine_weighted_matches_analytic_cap_probability() {
    // albedo 1 floor, light of radius 2 at height 4: the cosine-weighted
    // hit probability is (2/4)^2 = 1/4, so the mean bounce is S/4
    let scene = zenith_scene(SamplingStrategy::CosineWeighted, S, 4 * S, 2 * S);
    let mean = mean_bounce(&scene, 40000);
    assert!(mean > 15500, "mean {mean} too low");
    assert!(mean < 17300, "mean {mean} too high");
}

#[test]
fn uniform_strategy_agrees_with_cosine_weighted_in_expectation() {
    // the 2 cos factor makes the uniform estimator unbiased for the same
    // integral: same expectation of S/4 at albedo 1
    let scene = zenith_scene(SamplingStrategy::Uniform, S, 4 * S, 2 * S);
    let mean = mean_bounce(&scene, 40000);
    assert!(mean > 15300, "mean {mean} too low");
    assert!(mean < 17500, "mean {mean} too high");
}

#[test]
fn light_aware_strategy_agrees_in_expectation() {
    let scene = zenith_scene(SamplingStrategy::LightAware, S, 4 * S, 2 * S);
    let mean = mean_bounce(&scene, 40000);
    assert!(mean > 15300, "mean {mean} too low");
    assert!(mean < 17500, "mean {mean} too high");
}

#[test]
fn single_bounce_scales_with_albedo_and_solid_angle() {
    // albedo 0.5 halves the bounce; a smaller light means a smaller factor
    let big = zenith_scene(SamplingStrategy::CosineWeighted, S / 2, 4 * S, 2 * S);
    let mean_big = mean_bounce(&big, 40000);
    assert!(mean_big > 7600, "mean {mean_big} too low");
    assert!(mean_big < 8800, "mean {mean_big} too high");
    // radius 1 at height 4: probability 1/16, mean about S/32
    let small = zenith_scene(SamplingStrategy::CosineWeighted, S / 2, 4 * S, S);
    let mean_small = mean_bounce(&small, 40000);
    assert!(mean_small < mean_big, "{mean_small} vs {mean_big}");
    assert!(mean_small > 1300, "mean {mean_small} too low");
    assert!(mean_small < 2800, "mean {mean_small} too high");
}
