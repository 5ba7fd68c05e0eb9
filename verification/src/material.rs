//! Surface materials.

use crate::color::{is_albedo, Color};
use vstd::prelude::*;

verus! {

/// A diffuse material: its only parameter is the albedo (per-channel
/// reflectance in zero to one).
#[derive(Clone, Copy, Debug, PartialEq, Eq, Structural)]
pub struct Material {
    pub diffuse_color: Color,
}

/// A well-formed material has a valid albedo.
pub open spec fn wf_material(m: Material) -> bool {
    is_albedo(m.diffuse_color)
}

} // verus!
