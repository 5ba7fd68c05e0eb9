//! Camera ray generation.

use crate::fixed::{abs_i, lemma_abs_mul_bound, SCALE};
use crate::ray::{wf_ray, Ray, POS_MAX};
use crate::vector::{
    is_unit, lemma_combo_norm2, normalise_spec, unit_from_wide, v_bounded, v_combo, v_dot, Vec3,
    Vector, FRAME_DOT_TOL,
};
use vstd::prelude::*;

verus! {

/// A pinhole camera: position and an orthonormal basis (forward, right,
/// up).
#[derive(Clone, Copy, Debug, PartialEq, Eq, Structural)]
pub struct Camera {
    pub position: Vector,
    pub forward: Vector,
    pub right: Vector,
    pub up: Vector,
}

/// A camera the tracer accepts: in-bounds position, unit basis vectors,
/// pairwise orthogonal within the frame tolerance.
pub open spec fn wf_camera(c: Camera) -> bool {
    &&& v_bounded(c.position@, POS_MAX as int)
    &&& is_unit(c.forward@) && v_bounded(c.forward@, SCALE as int)
    &&& is_unit(c.right@) && v_bounded(c.right@, SCALE as int)
    &&& is_unit(c.up@) && v_bounded(c.up@, SCALE as int)
    &&& abs_i(v_dot(c.forward@, c.right@)) <= FRAME_DOT_TOL as int
    &&& abs_i(v_dot(c.forward@, c.up@)) <= FRAME_DOT_TOL as int
    &&& abs_i(v_dot(c.right@, c.up@)) <= FRAME_DOT_TOL as int
}

impl Camera {
    /// The primary ray through normalised screen coordinates `(x, y)`
    /// (fixed point, up to two units off-axis): from the camera position
    /// along the normalised `forward + x right + y up`.
    pub fn shoot_ray(self, x: i64, y: i64) -> (r: Ray)
        requires
            wf_camera(self),
            abs_i(x as int) <= 2 * SCALE as int,
            abs_i(y as int) <= 2 * SCALE as int,
        ensures
            wf_ray(r),
            r.origin == self.position,
            r.direction@ == normalise_spec(
                v_combo(self.forward@, self.right@, self.up@, SCALE as int, x as int, y as int),
            ),
    {
        proof {
            assert(x * x >= 0 && y * y >= 0) by (nonlinear_arith);
            lemma_combo_norm2(self.forward@, self.right@, self.up@, SCALE as int, x as int,
                y as int);
            lemma_abs_mul_bound(SCALE as int, self.forward@.x, SCALE as int, SCALE as int);
            lemma_abs_mul_bound(SCALE as int, self.forward@.y, SCALE as int, SCALE as int);
            lemma_abs_mul_bound(SCALE as int, self.forward@.z, SCALE as int, SCALE as int);
            lemma_abs_mul_bound(x as int, self.right@.x, 131072, SCALE as int);
            lemma_abs_mul_bound(x as int, self.right@.y, 131072, SCALE as int);
            lemma_abs_mul_bound(x as int, self.right@.z, 131072, SCALE as int);
            lemma_abs_mul_bound(y as int, self.up@.x, 131072, SCALE as int);
            lemma_abs_mul_bound(y as int, self.up@.y, 131072, SCALE as int);
            lemma_abs_mul_bound(y as int, self.up@.z, 131072, SCALE as int);
        }
        let wx: i128 = (SCALE as i128) * (self.forward.x as i128) + (x as i128) * (self.right.x
            as i128) + (y as i128) * (self.up.x as i128);
        let wy: i128 = (SCALE as i128) * (self.forward.y as i128) + (x as i128) * (self.right.y
            as i128) + (y as i128) * (self.up.y as i128);
        let wz: i128 = (SCALE as i128) * (self.forward.z as i128) + (x as i128) * (self.right.z
            as i128) + (y as i128) * (self.up.z as i128);
        proof {
            assert(Vec3 { x: wx as int, y: wy as int, z: wz as int } == v_combo(
                self.forward@,
                self.right@,
                self.up@,
                SCALE as int,
                x as int,
                y as int,
            ));
        }
        let direction: Vector = unit_from_wide(wx, wy, wz);
        Ray { origin: self.position, direction }
    }
}

} // verus!
