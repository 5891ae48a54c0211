//! Rays: an origin and a direction, with evaluation of the point a
//! given parameter distance along the direction.

use vstd::prelude::*;

verus! {

use crate::fixed::{Fx, spec_fmul, lemma_fmul_bound, CloseEq};
use crate::vector::{Vector3, VEC_LIMIT};

/// A ray in space. Directions produced by the cameras and materials
/// are normalized; the type itself does not require it.
#[derive(Clone, Copy, Debug, PartialEq, Eq, Structural)]
pub struct Ray3 {
    pub origin: Vector3,
    pub direction: Vector3,
}

/// Exact value of `point_at`: the origin offset by `t` times the
/// direction, componentwise in fixed point.
pub open spec fn spec_point_at(ray: Ray3, t: int) -> Vector3 {
    Vector3 {
        x: Fx { raw: (ray.origin.x.raw + spec_fmul(ray.direction.x.raw as int, t)) as i128 },
        y: Fx { raw: (ray.origin.y.raw + spec_fmul(ray.direction.y.raw as int, t)) as i128 },
        z: Fx { raw: (ray.origin.z.raw + spec_fmul(ray.direction.z.raw as int, t)) as i128 },
    }
}

impl Ray3 {
    pub fn new(origin: Vector3, direction: Vector3) -> (r: Ray3)
        ensures
            r == (Ray3 { origin, direction }),
    {
        Ray3 { origin, direction }
    }

    /// Both the origin and the direction are bounded by `m`.
    pub open spec fn bounded(self, m: int) -> bool {
        self.origin.bounded(m) && self.direction.bounded(m)
    }

    /// The point `t` units along the ray; exact.
    pub fn point_at(&self, t: Fx) -> (r: Vector3)
        requires
            self.bounded(VEC_LIMIT as int),
            -VEC_LIMIT <= t.raw <= VEC_LIMIT,
        ensures
            r == spec_point_at(*self, t.raw as int),
    {
        proof {
            lemma_fmul_bound(self.direction.x.raw as int, t.raw as int, VEC_LIMIT as int, VEC_LIMIT as int);
            lemma_fmul_bound(self.direction.y.raw as int, t.raw as int, VEC_LIMIT as int, VEC_LIMIT as int);
            lemma_fmul_bound(self.direction.z.raw as int, t.raw as int, VEC_LIMIT as int, VEC_LIMIT as int);
        }
        self.origin.plus(self.direction.scaled(t))
    }
}

impl CloseEq for Ray3 {
    open spec fn close_wf(&self, rhs: &Ray3) -> bool {
        self.origin.close_wf(&rhs.origin) && self.direction.close_wf(&rhs.direction)
    }

    /// Close when origin and direction are both close.
    open spec fn close_spec(&self, rhs: &Ray3) -> bool {
        self.origin.close_spec(&rhs.origin) && self.direction.close_spec(&rhs.direction)
    }

    fn close_eq(&self, rhs: &Ray3) -> (r: bool) {
        self.origin.close_eq(&rhs.origin) && self.direction.close_eq(&rhs.direction)
    }

    fn close_ne(&self, rhs: &Ray3) -> (r: bool) {
        !self.close_eq(rhs)
    }
}

} // verus!
