//! Geometry-layer tests: vector operations, normalisation, frames,
//! triangle and sphere intersection, camera rays, colours, the grid and
//! mesh conversion.  All values are fixed point: 65536 is one.

use pathtracer::camera::Camera;
use pathtracer::color::Color;
use pathtracer::model::{Model, RawModel};
use pathtracer::ray::Ray;
use pathtracer::rendering::Rendering;
use pathtracer::sphere::Sphere;
use pathtracer::triangle::Triangle;
use pathtracer::vector::{cross, dot, Vector};
use pathtracer::material::Material;

const S: i64 = 65536;

fn vec3(x: i64, y: i64, z: i64) -> Vector {
    Vector { x, y, z }
}

fn grey(v: i64) -> Material {
    Material {
        diffuse_color: Color { r: v, g: v, b: v },
    }
}

#[test]
fn vector_component_ops_are_exact() {
    let a = vec3(3 * S, -2 * S, S / 2);
    let b = vec3(S, S, -S);
    assert_eq!(a.add(b), vec3(4 * S, -S, S / 2 - S));
    assert_eq!(a.sub(b), vec3(2 * S, -3 * S, S / 2 + S));
    assert_eq!(a.neg(), vec3(-3 * S, 2 * S, -S / 2));
    // scaling by one half rounds toward zero
    assert_eq!(a.mul(S / 2), vec3(3 * S / 2, -S, S / 4));
}

#[test]
fn dot_and_cross_match_hand_values() {
    let a = vec3(S, 2 * S, 3 * S);
    let b = vec3(5 * S, S, -S);
    // (1*5 + 2*1 + 3*(-1)) = 4
    assert_eq!(dot(a, b), 4 * S);
    // (2*(-1) - 3*1, 3*5 - 1*(-1), 1*1 - 2*5) = (-5, 16, -9)
    assert_eq!(cross(a, b), vec3(-5 * S, 16 * S, -9 * S));
}

#[test]
fn cross_product_is_orthogonal_to_both_factors() {
    let a = vec3(S, 2 * S, 3 * S);
    let b = vec3(5 * S, S, -S);
    let c = cross(a, b);
    assert_eq!(dot(a, c), 0);
    assert_eq!(dot(b, c), 0);
    // a skewed pair where the rounded cross product is not exact: the dot
    // products stay within a few raw units of zero
    let p = vec3(12345, -54321, 7777);
    let q = vec3(-9876, 1111, 65000);
    let r = cross(p, q);
    assert!(dot(p, r).abs() <= 2);
    assert!(dot(q, r).abs() <= 2);
}

#[test]
fn normalised_has_unit_squared_norm() {
    // an exact case: (2, 0, 0) normalises to exactly (1, 0, 0)
    assert_eq!(vec3(2 * S, 0, 0).normalised(), vec3(S, 0, 0));
    // a general case: squared norm lands in [0.9999, 1.0001] * S^2
    let v = vec3(3 * S, 4 * S, 12 * S).normalised();
    let n2 = (v.x as i128) * (v.x as i128) + (v.y as i128) * (v.y as i128)
        + (v.z as i128) * (v.z as i128);
    assert!(n2 >= 4294537800);
    assert!(n2 <= 4295396792);
    assert!(v.is_normal());
    // the same through the fixed-point norm2 (dot of the vector with itself)
    let f = v.norm2();
    assert!(f >= S - 7 && f <= S + 7);
}

#[test]
fn norm_is_rounded_down_length() {
    // |(3, 4, 0)| = 5 exactly
    assert_eq!(vec3(3 * S, 4 * S, 0).norm(), 5 * S);
    // |(1, 1, 0)| = sqrt(2): rounded down at raw precision
    let n = vec3(S, S, 0).norm();
    assert_eq!(n, 92681); // floor(sqrt(2) * 65536)
}

#[test]
fn orthogonal_frame_is_orthonormal_within_tolerance() {
    for v in [
        vec3(0, 0, S),
        vec3(S, 0, 0),
        vec3(3 * S, 4 * S, 12 * S),
        vec3(-S, S, S / 3),
    ] {
        let n = v.normalised();
        let (v1, v2) = v.make_orthogonal_frame();
        assert!(v1.is_normal());
        assert!(v2.is_normal());
        // raw fixed-point dots: 0.0001 is about 7 raw units
        assert!(dot(n, v1).abs() <= 7);
        assert!(dot(n, v2).abs() <= 7);
        assert!(dot(v1, v2).abs() <= 7);
    }
}

#[test]
fn front_facing_triangle_hit_and_backface_cull() {
    // a floor square's lower-left triangle, normal up
    let t = Triangle {
        base: vec3(-S, -S, 0),
        v1: vec3(2 * S, 0, 0),
        v2: vec3(0, 2 * S, 0),
        material: grey(S / 2),
    };
    assert!(t.is_well_formed());
    assert_eq!(t.normal(), vec3(0, 0, S));
    // fired from above, straight down toward the centroid (-1/3, -1/3)
    let ray = Ray {
        origin: vec3(-21845, -21845, 3 * S),
        direction: vec3(0, 0, -S),
    };
    let hit = t.intersect(ray);
    assert!(hit.is_some());
    let (depth, se) = hit.unwrap();
    assert_eq!(depth, 3 * S);
    assert_eq!(se.normal, vec3(0, 0, S));
    assert_eq!(se.position, vec3(-21846, -21846, 0));
    assert_eq!(se.material, grey(S / 2));
    // the reversed ray is culled as back-facing
    let reversed = Ray {
        origin: ray.origin,
        direction: vec3(0, 0, S),
    };
    assert!(t.intersect(reversed).is_none());
    // a ray aimed outside the simplex misses
    let off = Ray {
        origin: vec3(3 * S, 3 * S, 3 * S),
        direction: vec3(0, 0, -S),
    };
    assert!(t.intersect(off).is_none());
}

#[test]
fn small_mesh_triangle_is_accepted() {
    // a triangle with edges of a hundredth of a unit, the size of a mesh
    // face: well-formed, with an exact unit normal
    let t = Triangle {
        base: vec3(S / 4, S / 4, S / 2),
        v1: vec3(655, 0, 0),
        v2: vec3(0, 655, 0),
        material: grey(S / 2),
    };
    assert!(t.is_well_formed());
    assert!(t.normal().is_normal());
    assert_eq!(t.normal(), vec3(0, 0, S));
}

#[test]
fn degenerate_triangle_is_rejected_at_construction() {
    let t = Triangle {
        base: vec3(0, 0, 0),
        v1: vec3(S, 0, 0),
        v2: vec3(2 * S, 0, 0), // parallel edges: zero area
        material: grey(S / 2),
    };
    assert!(!t.is_well_formed());
}

#[test]
fn sphere_hit_through_centre_and_offset_miss() {
    let sphere = Sphere {
        position: vec3(0, 0, 10 * S),
        radius: 2 * S,
        color: Color { r: S, g: S, b: S },
    };
    // straight through the centre: distance to centre minus radius
    let through = Ray {
        origin: vec3(0, 0, 0),
        direction: vec3(0, 0, S),
    };
    assert_eq!(sphere.intersect(through), Some(8 * S));
    // offset beyond the radius: no hit
    let offset = Ray {
        origin: vec3(0, 3 * S, 0),
        direction: vec3(0, 0, S),
    };
    assert_eq!(sphere.intersect(offset), None);
    // behind the origin: no hit
    let behind = Ray {
        origin: vec3(0, 0, 13 * S),
        direction: vec3(0, 0, S),
    };
    assert_eq!(sphere.intersect(behind), None);
    // from inside the sphere the smaller root is behind the origin and the
    // implementation reports no hit (the documented limitation)
    let inside = Ray {
        origin: vec3(0, 0, 10 * S),
        direction: vec3(0, 0, S),
    };
    assert_eq!(sphere.intersect(inside), None);
}

#[test]
fn camera_shoots_normalised_rays() {
    let camera = Camera {
        position: vec3(0, -S, S / 2),
        forward: vec3(0, S, 0),
        right: vec3(S, 0, 0),
        up: vec3(0, 0, S),
    };
    let centre = camera.shoot_ray(0, 0);
    assert_eq!(centre.origin, vec3(0, -S, S / 2));
    assert_eq!(centre.direction, vec3(0, S, 0));
    let corner = camera.shoot_ray(S, -S / 2);
    assert!(corner.direction.is_normal());
    assert!(corner.direction.x > 0);
    assert!(corner.direction.z < 0);
}

#[test]
fn colour_arithmetic_and_quantisation() {
    let c = Color { r: S, g: S / 2, b: 0 };
    let d = Color { r: S / 4, g: S / 2, b: S };
    let sum = c.add(d);
    assert_eq!(sum, Color { r: S + S / 4, g: S, b: S });
    // channelwise product: filtering by an albedo
    let filtered = c.mul(d);
    assert_eq!(filtered, Color { r: S / 4, g: S / 4, b: 0 });
    // quantisation clamps and scales to bytes
    assert_eq!(c.quantise(), (255, 127, 0));
    assert_eq!(
        (Color { r: 2 * S, g: -S, b: 258 }).quantise(),
        (255, 0, 1)
    );
    let scaled = c.scale(S / 2);
    assert_eq!(scaled, Color { r: S / 2, g: S / 4, b: 0 });
}

#[test]
fn rendering_grid_indexing_and_bytes() {
    let mut rendering = Rendering::rendering(3, 2);
    assert_eq!(rendering.pixels.len(), 6);
    *rendering.get_mut_pixel(2, 1) = Color { r: S, g: 0, b: S / 2 };
    *rendering.get_mut_pixel(0, 0) = Color { r: 0, g: S, b: 0 };
    let bytes = rendering.quantised_bytes();
    assert_eq!(bytes.len(), 18);
    assert_eq!(&bytes[0..3], &[0, 255, 0]);
    assert_eq!(&bytes[15..18], &[255, 0, 127]);
}

#[test]
fn model_from_raw_builds_based_triangles() {
    let raw = RawModel {
        vertices: vec![
            vec3(0, 0, 0),
            vec3(S, 0, 0),
            vec3(0, S, 0),
            vec3(0, 0, S),
        ],
        triangle_indices: vec![(0, 1, 2), (1, 2, 3)],
    };
    let model = Model::from_raw(raw);
    assert_eq!(model.triangles.len(), 2);
    let t0 = model.triangles[0];
    assert_eq!(t0.base, vec3(0, 0, 0));
    assert_eq!(t0.v1, vec3(S, 0, 0));
    assert_eq!(t0.v2, vec3(0, S, 0));
    assert_eq!(t0.material.diffuse_color, Color { r: 58982, g: 58982, b: 58982 });
    let t1 = model.triangles[1];
    assert_eq!(t1.base, vec3(S, 0, 0));
    assert_eq!(t1.v1, vec3(-S, S, 0));
    assert_eq!(t1.v2, vec3(-S, 0, S));
    assert!(t0.is_well_formed() && t1.is_well_formed());
}
