//! Cameras map a film-plane offset (in scene units relative to the
//! image center) to a world-space ray.
//!
//! Both cameras derive an orthonormal-order basis `(u, v, w)` from
//! eye, look-at and up at construction. A normalization that fails
//! (collinear or zero inputs) yields a zero direction; a zero-
//! direction ray misses everything, so the degenerate camera traces
//! to the ambient color.

use vstd::prelude::*;

verus! {

use crate::fixed::{Fx, lemma_fmul_bound};
use crate::ray::Ray3;
use crate::shapes::{spec_ray_ok, COORD_LIMIT};
use crate::vector::{Vector3, spec_norm, spec_len, spec_v3_sub, spec_v3_cross, spec_v3_add, spec_v3_scale};
use crate::vector::{UNIT_LIMIT, VEC_LIMIT, lemma_bounded_widen};

/// Largest film-plane offset magnitude `generate_ray` accepts.
pub const CAM_OFF_LIMIT: i128 = 0x2_0000_0000;

/// Largest basis-vector component magnitude a camera stores.
pub const CAM_AXIS_LIMIT: i128 = 0x80000;

/// A normalization with the degenerate fallback: the unit direction
/// of `v`, or zero when none exists.
pub open spec fn spec_norm_or_zero(v: Vector3) -> Vector3 {
    if spec_len(v) != 0 && spec_norm(v).bounded(UNIT_LIMIT as int) {
        spec_norm(v)
    } else {
        Vector3 { x: Fx { raw: 0 }, y: Fx { raw: 0 }, z: Fx { raw: 0 } }
    }
}

/// Normalizes, falling back to the zero vector on degeneracy.
fn norm_or_zero(v: Vector3) -> (r: Vector3)
    requires
        v.bounded(VEC_LIMIT as int),
    ensures
        r == spec_norm_or_zero(v),
        r.bounded(UNIT_LIMIT as int),
{
    match v.normalized() {
        Some(n) => n,
        None => Vector3::zero(),
    }
}

/// The camera basis from eye, look-at and up:
/// `w` toward the eye, `u` to the right, `v` up.
pub open spec fn spec_uvw(eye: Vector3, lookat: Vector3, up: Vector3) -> (Vector3, Vector3,
    Vector3) {
    let w = spec_norm_or_zero(spec_v3_sub(eye, lookat));
    let u = spec_norm_or_zero(spec_v3_cross(up, w));
    let v = spec_v3_cross(w, u);
    (u, v, w)
}

/// Computes the camera basis at run time.
fn calculate_uvw(eye: &Vector3, lookat: &Vector3, up: &Vector3) -> (r: (Vector3, Vector3,
    Vector3))
    requires
        eye.bounded(COORD_LIMIT as int),
        lookat.bounded(COORD_LIMIT as int),
        up.bounded(COORD_LIMIT as int),
    ensures
        r == spec_uvw(*eye, *lookat, *up),
        r.0.bounded(CAM_AXIS_LIMIT as int),
        r.1.bounded(CAM_AXIS_LIMIT as int),
        r.2.bounded(CAM_AXIS_LIMIT as int),
{
    proof {
        lemma_bounded_widen(*eye, COORD_LIMIT as int, 0x2_0000_0000);
        lemma_bounded_widen(*lookat, COORD_LIMIT as int, 0x2_0000_0000);
    }
    let w = norm_or_zero(eye.minus(*lookat));
    proof {
        lemma_bounded_widen(*up, COORD_LIMIT as int, VEC_LIMIT as int);
        lemma_bounded_widen(w, UNIT_LIMIT as int, VEC_LIMIT as int);
        crate::vector::lemma_dot_terms_bounded(*up, w);
        lemma_cross_small(*up, w, COORD_LIMIT as int, UNIT_LIMIT as int);
    }
    let u = norm_or_zero(up.cross(&w));
    proof {
        lemma_bounded_widen(u, UNIT_LIMIT as int, VEC_LIMIT as int);
        lemma_cross_small(w, u, UNIT_LIMIT as int, UNIT_LIMIT as int);
    }
    let v = w.cross(&u);
    (u, v, w)
}

/// A cross product of bounded vectors is componentwise bounded by
/// twice the rescaled product of the bounds.
proof fn lemma_cross_small(a: Vector3, b: Vector3, m: int, n: int)
    requires
        a.bounded(m),
        b.bounded(n),
        m >= 0,
        n >= 0,
    ensures
        spec_v3_cross(a, b).bounded(2 * ((m * n) / 65536)),
{
    lemma_fmul_bound(a.y.raw as int, b.z.raw as int, m, n);
    lemma_fmul_bound(a.z.raw as int, b.y.raw as int, m, n);
    lemma_fmul_bound(a.z.raw as int, b.x.raw as int, m, n);
    lemma_fmul_bound(a.x.raw as int, b.z.raw as int, m, n);
    lemma_fmul_bound(a.x.raw as int, b.y.raw as int, m, n);
    lemma_fmul_bound(a.y.raw as int, b.x.raw as int, m, n);
}

/// A parallel-projection camera: every ray shares one direction.
#[derive(Clone, Copy, Debug)]
pub struct OrthographicCamera {
    pub eye: Vector3,
    pub lookat: Vector3,
    pub direction: Vector3,
    pub uvw: (Vector3, Vector3, Vector3),
}

/// Exact mirror of the orthographic ray: the eye offset along the
/// right/up basis, with the fixed view direction.
pub open spec fn spec_ortho_ray(c: OrthographicCamera, dx: int, dy: int) -> Ray3 {
    Ray3 {
        origin: spec_v3_add(
            spec_v3_add(c.eye, spec_v3_scale(c.uvw.0, dx)),
            spec_v3_scale(c.uvw.1, dy),
        ),
        direction: c.direction,
    }
}

impl OrthographicCamera {
    /// Render-ready: eye within the world bounds, basis and direction
    /// of unit order.
    pub open spec fn wf(self) -> bool {
        &&& self.eye.bounded(COORD_LIMIT as int)
        &&& self.direction.bounded(UNIT_LIMIT as int)
        &&& self.uvw.0.bounded(CAM_AXIS_LIMIT as int)
        &&& self.uvw.1.bounded(CAM_AXIS_LIMIT as int)
        &&& self.uvw.2.bounded(CAM_AXIS_LIMIT as int)
    }

    pub fn new(eye: &Vector3, lookat: &Vector3, up: &Vector3) -> (c: OrthographicCamera)
        requires
            eye.bounded(COORD_LIMIT as int),
            lookat.bounded(COORD_LIMIT as int),
            up.bounded(COORD_LIMIT as int),
        ensures
            c.wf(),
            c.eye == *eye,
            c.lookat == *lookat,
            c.direction == spec_norm_or_zero(spec_v3_sub(*lookat, *eye)),
            c.uvw == spec_uvw(*eye, *lookat, *up),
    {
        proof {
            lemma_bounded_widen(*eye, COORD_LIMIT as int, 0x2_0000_0000);
            lemma_bounded_widen(*lookat, COORD_LIMIT as int, 0x2_0000_0000);
        }
        OrthographicCamera {
            eye: *eye,
            lookat: *lookat,
            direction: norm_or_zero(lookat.minus(*eye)),
            uvw: calculate_uvw(eye, lookat, up),
        }
    }

    /// The parallel ray through film offset `(dx, dy)`; exact.
    pub fn generate_ray(&self, dx: Fx, dy: Fx) -> (r: Ray3)
        requires
            self.wf(),
            -CAM_OFF_LIMIT <= dx.raw <= CAM_OFF_LIMIT,
            -CAM_OFF_LIMIT <= dy.raw <= CAM_OFF_LIMIT,
        ensures
            r == spec_ortho_ray(*self, dx.raw as int, dy.raw as int),
            spec_ray_ok(r),
    {
        proof {
            lemma_scaled_axis_bound(self.uvw.0, dx.raw as int);
            lemma_scaled_axis_bound(self.uvw.1, dy.raw as int);
        }
        Ray3 {
            origin: self.eye.plus(self.uvw.0.scaled(dx)).plus(self.uvw.1.scaled(dy)),
            direction: self.direction,
        }
    }
}

/// A basis axis scaled by a film offset stays within the ray-origin
/// budget.
proof fn lemma_scaled_axis_bound(axis: Vector3, d: int)
    requires
        axis.bounded(CAM_AXIS_LIMIT as int),
        -CAM_OFF_LIMIT <= d <= CAM_OFF_LIMIT,
    ensures
        spec_v3_scale(axis, d).bounded(0x10_0000_0000),
{
    lemma_fmul_bound(axis.x.raw as int, d, CAM_AXIS_LIMIT as int, CAM_OFF_LIMIT as int);
    lemma_fmul_bound(axis.y.raw as int, d, CAM_AXIS_LIMIT as int, CAM_OFF_LIMIT as int);
    lemma_fmul_bound(axis.z.raw as int, d, CAM_AXIS_LIMIT as int, CAM_OFF_LIMIT as int);
}

/// A single-origin perspective camera.
#[derive(Clone, Copy, Debug)]
pub struct PinholeCamera {
    pub eye: Vector3,
    pub distance: Fx,
    pub uvw: (Vector3, Vector3, Vector3),
}

/// Exact mirror of the pinhole ray: from the eye, along the
/// normalized combination of the basis offsets and the focal term.
pub open spec fn spec_pinhole_ray(c: PinholeCamera, dx: int, dy: int) -> Ray3 {
    let raw_dir = spec_v3_sub(
        spec_v3_add(spec_v3_scale(c.uvw.0, dx), spec_v3_scale(c.uvw.1, dy)),
        spec_v3_scale(c.uvw.2, c.distance.raw as int),
    );
    Ray3 { origin: c.eye, direction: spec_norm_or_zero(raw_dir) }
}

impl PinholeCamera {
    /// Render-ready: eye within the world bounds, basis of unit
    /// order, a bounded focal distance.
    pub open spec fn wf(self) -> bool {
        &&& self.eye.bounded(COORD_LIMIT as int)
        &&& 0 <= self.distance.raw <= COORD_LIMIT
        &&& self.uvw.0.bounded(CAM_AXIS_LIMIT as int)
        &&& self.uvw.1.bounded(CAM_AXIS_LIMIT as int)
        &&& self.uvw.2.bounded(CAM_AXIS_LIMIT as int)
    }

    pub fn new(eye: &Vector3, lookat: &Vector3, up: &Vector3, distance: Fx) -> (c:
        PinholeCamera)
        requires
            eye.bounded(COORD_LIMIT as int),
            lookat.bounded(COORD_LIMIT as int),
            up.bounded(COORD_LIMIT as int),
            0 <= distance.raw <= COORD_LIMIT,
        ensures
            c.wf(),
            c.eye == *eye,
            c.distance == distance,
            c.uvw == spec_uvw(*eye, *lookat, *up),
    {
        PinholeCamera { eye: *eye, distance, uvw: calculate_uvw(eye, lookat, up) }
    }

    /// The perspective ray through film offset `(dx, dy)`; exact.
    pub fn generate_ray(&self, dx: Fx, dy: Fx) -> (r: Ray3)
        requires
            self.wf(),
            -CAM_OFF_LIMIT <= dx.raw <= CAM_OFF_LIMIT,
            -CAM_OFF_LIMIT <= dy.raw <= CAM_OFF_LIMIT,
        ensures
            r == spec_pinhole_ray(*self, dx.raw as int, dy.raw as int),
            spec_ray_ok(r),
    {
        proof {
            lemma_scaled_axis_bound(self.uvw.0, dx.raw as int);
            lemma_scaled_axis_bound(self.uvw.1, dy.raw as int);
            lemma_fmul_bound(
                self.uvw.2.x.raw as int,
                self.distance.raw as int,
                CAM_AXIS_LIMIT as int,
                COORD_LIMIT as int,
            );
            lemma_fmul_bound(
                self.uvw.2.y.raw as int,
                self.distance.raw as int,
                CAM_AXIS_LIMIT as int,
                COORD_LIMIT as int,
            );
            lemma_fmul_bound(
                self.uvw.2.z.raw as int,
                self.distance.raw as int,
                CAM_AXIS_LIMIT as int,
                COORD_LIMIT as int,
            );
        }
        let raw_dir = self.uvw.0.scaled(dx).plus(self.uvw.1.scaled(dy)).minus(
            self.uvw.2.scaled(self.distance),
        );
        proof {
            lemma_bounded_widen(raw_dir, 0x30_0000_0000, VEC_LIMIT as int);
        }
        Ray3 { origin: self.eye, direction: norm_or_zero(raw_dir) }
    }
}

/// The closed set of ray generators.
#[derive(Clone, Copy, Debug)]
pub enum Camera {
    Orthographic(OrthographicCamera),
    Pinhole(PinholeCamera),
}

/// The ray either camera generates for a film offset.
pub open spec fn spec_generate_ray(c: Camera, dx: int, dy: int) -> Ray3 {
    match c {
        Camera::Orthographic(cam) => spec_ortho_ray(cam, dx, dy),
        Camera::Pinhole(cam) => spec_pinhole_ray(cam, dx, dy),
    }
}

impl Camera {
    /// The wrapped camera's own well-formedness.
    pub open spec fn wf(self) -> bool {
        match self {
            Camera::Orthographic(c) => c.wf(),
            Camera::Pinhole(c) => c.wf(),
        }
    }

    /// The ray through film offset `(dx, dy)`; exact for either
    /// projection.
    pub fn generate_ray(&self, dx: Fx, dy: Fx) -> (r: Ray3)
        requires
            self.wf(),
            -CAM_OFF_LIMIT <= dx.raw <= CAM_OFF_LIMIT,
            -CAM_OFF_LIMIT <= dy.raw <= CAM_OFF_LIMIT,
        ensures
            r == spec_generate_ray(*self, dx.raw as int, dy.raw as int),
            spec_ray_ok(r),
    {
        match self {
            Camera::Orthographic(c) => c.generate_ray(dx, dy),
            Camera::Pinhole(c) => c.generate_ray(dx, dy),
        }
    }
}


/// Checks a componentwise magnitude bound at run time.
fn axis_within(v: &Vector3, m: i128) -> (r: bool)
    requires
        m >= 0,
    ensures
        r == v.bounded(m as int),
{
    -m <= v.x.raw && v.x.raw <= m && -m <= v.y.raw && v.y.raw <= m && -m <= v.z.raw
        && v.z.raw <= m
}

impl Camera {
    /// Checks `wf` at run time, for callers that assemble cameras
    /// outside the library's constructors.
    pub fn check_wf(&self) -> (r: bool)
        ensures
            r == self.wf(),
    {
        match self {
            Camera::Orthographic(c) => axis_within(&c.eye, COORD_LIMIT) && axis_within(
                &c.direction,
                crate::vector::UNIT_LIMIT,
            ) && axis_within(&c.uvw.0, CAM_AXIS_LIMIT) && axis_within(&c.uvw.1, CAM_AXIS_LIMIT)
                && axis_within(&c.uvw.2, CAM_AXIS_LIMIT),
            Camera::Pinhole(c) => axis_within(&c.eye, COORD_LIMIT) && 0 <= c.distance.raw
                && c.distance.raw <= COORD_LIMIT && axis_within(&c.uvw.0, CAM_AXIS_LIMIT)
                && axis_within(&c.uvw.1, CAM_AXIS_LIMIT) && axis_within(&c.uvw.2, CAM_AXIS_LIMIT),
        }
    }
}

} // verus!
