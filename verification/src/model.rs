//! Mesh models: indexed vertex data turned into triangles.
//!
//! Reading the data from disk is the caller's business; this module holds
//! the verified conversion from indexed form to the triangle list, giving
//! every triangle the default model material.

use crate::color::Color;
use crate::material::Material;
use crate::ray::SCENE_MAX;
use crate::triangle::Triangle;
use crate::vector::{v_bounded, v_sub, Vector};
use vstd::prelude::*;

verus! {

/// Half the scene bound: vertices within it keep every edge difference
/// within the scene bound.
pub const VERTEX_MAX: i64 = 33554432;

/// The default model albedo, 0.9 per channel.
pub const MODEL_ALBEDO: i64 = 58982;

/// A mesh as loaded: vertices, and triangles as vertex-index triples.
#[derive(Clone, Debug)]
pub struct RawModel {
    pub vertices: Vec<Vector>,
    pub triangle_indices: Vec<(usize, usize, usize)>,
}

/// Every index in range, every vertex within the vertex bound.
pub open spec fn wf_raw_model(m: &RawModel) -> bool {
    &&& forall|i: int|
        0 <= i < m.vertices@.len() ==> v_bounded(#[trigger] m.vertices@[i]@, VERTEX_MAX as int)
    &&& forall|k: int|
        0 <= k < m.triangle_indices@.len() ==> {
            let (n1, n2, n3) = #[trigger] m.triangle_indices@[k];
            n1 < m.vertices@.len() && n2 < m.vertices@.len() && n3 < m.vertices@.len()
        }
}

/// A mesh as the scene consumes it.
#[derive(Clone, Debug)]
pub struct Model {
    pub triangles: Vec<Triangle>,
}

impl Model {
    /// The triangles of a raw model: one per index triple, based at its
    /// first vertex with the other two as edge differences, all with the
    /// default material.  Degenerate triples are kept as they stand — the
    /// scene construction must reject them (`wf_triangle` is an executable
    /// check there).
    pub fn from_raw(raw_model: RawModel) -> (m: Model)
        requires
            wf_raw_model(&raw_model),
        ensures
            m.triangles@.len() == raw_model.triangle_indices@.len(),
            forall|k: int|
                0 <= k < m.triangles@.len() ==> {
                    let (n1, n2, n3) = raw_model.triangle_indices@[k];
                    &&& (#[trigger] m.triangles@[k]).base == raw_model.vertices@[n1 as int]
                    &&& m.triangles@[k].v1@ == v_sub(
                        raw_model.vertices@[n2 as int]@,
                        raw_model.vertices@[n1 as int]@,
                    )
                    &&& m.triangles@[k].v2@ == v_sub(
                        raw_model.vertices@[n3 as int]@,
                        raw_model.vertices@[n1 as int]@,
                    )
                    &&& m.triangles@[k].material == (Material {
                        diffuse_color: Color {
                            r: MODEL_ALBEDO,
                            g: MODEL_ALBEDO,
                            b: MODEL_ALBEDO,
                        },
                    })
                    &&& v_bounded(m.triangles@[k].base@, SCENE_MAX as int)
                    &&& v_bounded(m.triangles@[k].v1@, SCENE_MAX as int)
                    &&& v_bounded(m.triangles@[k].v2@, SCENE_MAX as int)
                },
    {
        let default_material = Material {
            diffuse_color: Color { r: MODEL_ALBEDO, g: MODEL_ALBEDO, b: MODEL_ALBEDO },
        };
        let mut triangles: Vec<Triangle> = Vec::new();
        let mut k: usize = 0;
        while k < raw_model.triangle_indices.len()
            invariant
                wf_raw_model(&raw_model),
                k <= raw_model.triangle_indices@.len(),
                triangles@.len() == k,
                default_material == (Material {
                    diffuse_color: Color { r: MODEL_ALBEDO, g: MODEL_ALBEDO, b: MODEL_ALBEDO },
                }),
                forall|j: int|
                    0 <= j < k ==> {
                        let (n1, n2, n3) = raw_model.triangle_indices@[j];
                        &&& (#[trigger] triangles@[j]).base == raw_model.vertices@[n1 as int]
                        &&& triangles@[j].v1@ == v_sub(
                            raw_model.vertices@[n2 as int]@,
                            raw_model.vertices@[n1 as int]@,
                        )
                        &&& triangles@[j].v2@ == v_sub(
                            raw_model.vertices@[n3 as int]@,
                            raw_model.vertices@[n1 as int]@,
                        )
                        &&& triangles@[j].material == default_material
                        &&& v_bounded(triangles@[j].base@, SCENE_MAX as int)
                        &&& v_bounded(triangles@[j].v1@, SCENE_MAX as int)
                        &&& v_bounded(triangles@[j].v2@, SCENE_MAX as int)
                    },
            decreases raw_model.triangle_indices@.len() - k,
        {
            let (n1, n2, n3) = raw_model.triangle_indices[k];
            let v1_raw: Vector = raw_model.vertices[n1];
            let v2_raw: Vector = raw_model.vertices[n2];
            let v3_raw: Vector = raw_model.vertices[n3];
            let triangle = Triangle {
                base: v1_raw,
                v1: v2_raw.sub(v1_raw),
                v2: v3_raw.sub(v1_raw),
                material: default_material,
            };
            triangles.push(triangle);
            k = k + 1;
        }
        Model { triangles }
    }
}

} // verus!
