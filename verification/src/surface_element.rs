//! Transient hit descriptions.

use crate::fixed::SCALE;
use crate::material::{wf_material, Material};
use crate::ray::POS_MAX;
use crate::vector::{is_unit, v_bounded, Vector};
use vstd::prelude::*;

verus! {

/// What an intersection hands to the estimator: the hit position, the unit
/// surface normal there, and the surface's material.  Produced per query,
/// never persisted.
#[derive(Clone, Copy, Debug, PartialEq, Eq, Structural)]
pub struct SurfaceElement {
    pub position: Vector,
    pub normal: Vector,
    pub material: Material,
}

/// A well-formed surface element: bounded position, unit normal, valid
/// material.
pub open spec fn wf_surface(se: SurfaceElement) -> bool {
    v_bounded(se.position@, POS_MAX as int) && is_unit(se.normal@) && v_bounded(
        se.normal@,
        SCALE as int,
    ) && wf_material(se.material)
}

} // verus!
