//! Rays, and the coordinate bounds the tracer works within.

use crate::vector::{is_unit, v_bounded, Vector};
use vstd::prelude::*;

verus! {

/// Bound on scene coordinates (2^26 raw, about a thousand world units):
/// triangle vertices, the sphere centre and radius, and camera positions
/// must stay within it.
pub const SCENE_MAX: i64 = 67108864;

/// Bound on ray origins and hit positions (three times `SCENE_MAX`): a hit
/// point inside a triangle stays within it, so recursion preserves it.
pub const POS_MAX: i64 = 201326592;

/// Distance horizon (2^36 raw, about a million world units): triangle hits
/// farther than this count as misses, so distances stay well inside the
/// arithmetic bounds.
pub const T_MAX: i64 = 68719476736;

/// A ray: origin plus direction.  The direction must be a unit vector —
/// enforced by contract, never by internal renormalisation.
#[derive(Clone, Copy, Debug, PartialEq, Eq, Structural)]
pub struct Ray {
    pub origin: Vector,
    pub direction: Vector,
}

/// A ray the tracer accepts: unit direction, origin within the position
/// bound.
pub open spec fn wf_ray(r: Ray) -> bool {
    is_unit(r.direction@) && v_bounded(r.direction@, crate::fixed::SCALE as int) && v_bounded(
        r.origin@,
        POS_MAX as int,
    )
}

} // verus!
