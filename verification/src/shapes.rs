//! Geometric primitives and their ray intersection.
//!
//! Every `intersect` returns the nearest forward hit as the exact
//! value of a mirror specification, or `None`. Degenerate arithmetic
//! — a zero direction, a parallel ray, a hit beyond the world bounds
//! — yields `None`, so a degenerate path is absorbed rather than
//! carried on (the policy for numerical edge cases).

use vstd::prelude::*;

verus! {

use vstd::math::abs;
use crate::fixed::{Fx, SCALE, MUL_LIMIT, spec_fmul, spec_fdiv, spec_isqrt};
use crate::fixed::lemma_fmul_bound;
use crate::material::Material;
use crate::matrix::{Matrix4, MAT_LIMIT, spec_rx_entry, spec_ry_entry, spec_rz_entry, spec_rxy_entry, spec_rot_entry, spec_rotated};
use crate::ray::{Ray3, spec_point_at};
use crate::trig::TURN_LIMIT;
use crate::vector::{Vector3, spec_dot, spec_v3_add, spec_v3_sub, spec_v3_div, spec_norm};
use crate::vector::{spec_v3_cross, spec_v3_neg, spec_len};
use crate::vector::{UNIT_LIMIT, VEC_LIMIT, lemma_dot_bound, lemma_dot_bound2, lemma_dot_self_nonneg, lemma_bounded_widen};

/// The forward-hit guard: hits closer than this raw distance are
/// discarded to avoid re-hitting the originating surface.
pub const HIT_EPS: i128 = 7;

/// Largest accepted hit distance; a farther hit counts as a miss.
pub const T_LIMIT: i128 = 0x1_0000_0000_0000;

/// Largest accepted hit-point component magnitude.
pub const POINT_LIMIT: i128 = 0x4_0000_0000;

/// Largest ray-origin component magnitude the intersectors accept.
pub const RAY_ORIGIN_LIMIT: i128 = 0x30_0000_0000;

/// Largest scene-coordinate magnitude (centers, plane points, axes,
/// radii).
pub const COORD_LIMIT: i128 = 0x1_0000_0000;

/// A ray as the tracer produces it: origin within the world bounds,
/// direction of unit order.
pub open spec fn spec_ray_ok(ray: Ray3) -> bool {
    ray.origin.bounded(RAY_ORIGIN_LIMIT as int) && ray.direction.bounded(UNIT_LIMIT as int)
}

/// A transient record of one ray-object hit.
#[derive(Clone, Debug)]
pub struct Intersection {
    pub ray: Ray3,
    pub t: Fx,
    pub point: Vector3,
    pub normal: Vector3,
}

impl Intersection {
    /// The ranges the tracer relies on: a forward hit within the
    /// world bounds, with a unit-order normal.
    pub open spec fn ok(self) -> bool {
        &&& 0 <= self.t.raw <= T_LIMIT
        &&& self.point.bounded(POINT_LIMIT as int)
        &&& self.normal.bounded(UNIT_LIMIT as int)
        &&& spec_ray_ok(self.ray)
    }
}

/// The range guard every intersector applies before reporting a hit.
pub open spec fn spec_hit_ok(t: int, point: Vector3, normal: Vector3) -> bool {
    &&& 0 <= t <= T_LIMIT
    &&& point.bounded(POINT_LIMIT as int)
    &&& normal.bounded(UNIT_LIMIT as int)
}

/// Checks the range guard at run time.
fn validate_hit(t: Fx, point: Vector3, normal: Vector3) -> (ok: bool)
    ensures
        ok == spec_hit_ok(t.raw as int, point, normal),
{
    0 <= t.raw && t.raw <= T_LIMIT && -POINT_LIMIT <= point.x.raw && point.x.raw <= POINT_LIMIT
        && -POINT_LIMIT <= point.y.raw && point.y.raw <= POINT_LIMIT && -POINT_LIMIT
        <= point.z.raw && point.z.raw <= POINT_LIMIT && -UNIT_LIMIT <= normal.x.raw
        && normal.x.raw <= UNIT_LIMIT && -UNIT_LIMIT <= normal.y.raw && normal.y.raw
        <= UNIT_LIMIT && -UNIT_LIMIT <= normal.z.raw && normal.z.raw <= UNIT_LIMIT
}

/// A sphere given by center and radius.
#[derive(Clone, Debug)]
pub struct Sphere {
    pub center: Vector3,
    pub radius: Fx,
    pub material: Material,
}

/// Exact mirror of the sphere intersection: the quadratic solve, the
/// smaller positive root first, then the range guard.
pub open spec fn spec_sphere_hit(s: Sphere, ray: Ray3) -> Option<Intersection> {
    let v = spec_v3_sub(ray.origin, s.center);
    let a = spec_dot(ray.direction, ray.direction);
    let b = spec_dot(spec_v3_add(v, v), ray.direction);
    let c = spec_dot(v, v) - spec_fmul(s.radius.raw as int, s.radius.raw as int);
    let disc = spec_fmul(b, b) - spec_fmul(4 * a, c);
    if disc < 0 || a == 0 {
        None
    } else {
        let e = spec_isqrt((disc * SCALE) as nat) as int;
        let t1 = spec_fdiv(-b - e, 2 * a);
        let t2 = spec_fdiv(-b + e, 2 * a);
        if !(t1 > HIT_EPS || t2 > HIT_EPS) {
            None
        } else {
            let t = if t1 > HIT_EPS {
                t1
            } else {
                t2
            };
            let point = spec_point_at(ray, t);
            let normal = spec_v3_div(spec_v3_sub(point, s.center), s.radius.raw as int);
            if spec_hit_ok(t, point, normal) {
                Some(Intersection { ray, t: Fx { raw: t as i128 }, point, normal })
            } else {
                None
            }
        }
    }
}

impl Sphere {
    /// Scene-ready: coordinates within the world bounds, a positive
    /// radius, a well-formed material.
    pub open spec fn wf(self) -> bool {
        &&& self.center.bounded(COORD_LIMIT as int)
        &&& 0 < self.radius.raw <= COORD_LIMIT
        &&& self.material.wf()
    }

    /// The nearest forward intersection, exactly as the mirror
    /// specification computes it.
    pub fn intersect(&self, ray: &Ray3) -> (r: Option<Intersection>)
        requires
            self.wf(),
            spec_ray_ok(*ray),
        ensures
            r == spec_sphere_hit(*self, *ray),
            r matches Some(i) ==> i.ok() && i.ray == *ray,
    {
        let v = ray.origin.minus(self.center);
        proof {
            lemma_bounded_widen(v, RAY_ORIGIN_LIMIT as int + COORD_LIMIT as int, 0x40_0000_0000);
            lemma_bounded_widen(v, 0x40_0000_0000, VEC_LIMIT as int);
            lemma_bounded_widen(ray.direction, UNIT_LIMIT as int, VEC_LIMIT as int);
        }
        let a = ray.direction.dot(&ray.direction);
        let v2 = v.plus(v);
        proof {
            lemma_bounded_widen(v2, 0x80_0000_0000, VEC_LIMIT as int);
            lemma_dot_bound2(v2, ray.direction, 0x80_0000_0000, UNIT_LIMIT as int);
            lemma_dot_bound(v, v, 0x40_0000_0000);
            lemma_dot_bound(ray.direction, ray.direction, UNIT_LIMIT as int);
            lemma_fmul_bound(
                self.radius.raw as int,
                self.radius.raw as int,
                COORD_LIMIT as int,
                COORD_LIMIT as int,
            );
        }
        let b = v2.dot(&ray.direction);
        let c = v.dot(&v).fsub(self.radius.fmul(self.radius));
        proof {
            lemma_fmul_bound(b.raw as int, b.raw as int, 0x1_0000_0000_0000, 0x1_0000_0000_0000);
            lemma_fmul_bound(4 * a.raw as int, c.raw as int, 0x400_0000, MUL_LIMIT as int);
        }
        let a4 = a.fadd(a).fadd(a.fadd(a));
        let disc = b.fmul(b).fsub(a4.fmul(c));
        if disc.raw < 0 || a.raw == 0 {
            return None;
        }
        proof {
            lemma_dot_self_nonneg(ray.direction);
        }
        let e = disc.fsqrt();
        proof {
            let ei = e.raw as int;
            assert(ei * ei <= disc.raw * SCALE);
            assert(ei <= 0x100_0000_0000_0000) by (nonlinear_arith)
                requires
                    ei * ei <= disc.raw * SCALE,
                    disc.raw * SCALE <= 0x10000_0000_0000_0000_0000_0000_0000,
                    ei >= 0,
            ;
        }
        let denom = a.fadd(a);
        let t1 = b.fneg().fsub(e).fdiv(denom);
        let t2 = b.fneg().fadd(e).fdiv(denom);
        let t: Fx;
        if t1.raw > HIT_EPS {
            t = t1;
        } else if t2.raw > HIT_EPS {
            t = t2;
        } else {
            return None;
        }
        if !(0 <= t.raw && t.raw <= T_LIMIT) {
            proof {
                assert(!spec_hit_ok(
                    t.raw as int,
                    spec_point_at(*ray, t.raw as int),
                    spec_v3_div(
                        spec_v3_sub(spec_point_at(*ray, t.raw as int), self.center),
                        self.radius.raw as int,
                    ),
                ));
            }
            return None;
        }
        let point = ray.point_at(t);
        proof {
            lemma_point_at_bound(*ray, t.raw as int);
            lemma_bounded_widen(point, 0x21_0000_0000_0000, MUL_LIMIT as int);
        }
        let normal = point.minus(self.center).divided(self.radius);
        if validate_hit(t, point, normal) {
            Some(Intersection { ray: *ray, t, point, normal })
        } else {
            None
        }
    }
}

/// The point `t` along a well-formed ray stays within an order of the
/// hit guard's range.
proof fn lemma_point_at_bound(ray: Ray3, t: int)
    requires
        spec_ray_ok(ray),
        0 <= t <= T_LIMIT,
    ensures
        spec_point_at(ray, t).bounded(0x21_0000_0000_0000),
{
    lemma_fmul_bound(ray.direction.x.raw as int, t, UNIT_LIMIT as int, T_LIMIT as int);
    lemma_fmul_bound(ray.direction.y.raw as int, t, UNIT_LIMIT as int, T_LIMIT as int);
    lemma_fmul_bound(ray.direction.z.raw as int, t, UNIT_LIMIT as int, T_LIMIT as int);
}

/// An infinite plane given by a point on it and its normal.
#[derive(Clone, Debug)]
pub struct Plane {
    pub point: Vector3,
    pub normal: Vector3,
    pub material: Material,
}

/// Exact mirror of the plane intersection: the parametric solve, a
/// parallel ray (zero denominator) is a miss, then the range guard.
pub open spec fn spec_plane_hit(p: Plane, ray: Ray3) -> Option<Intersection> {
    let num = spec_dot(spec_v3_sub(p.point, ray.origin), p.normal);
    let den = spec_dot(ray.direction, p.normal);
    if den == 0 {
        None
    } else {
        let t = spec_fdiv(num, den);
        if !(t > HIT_EPS) {
            None
        } else {
            let point = spec_point_at(ray, t);
            if spec_hit_ok(t, point, p.normal) {
                Some(Intersection { ray, t: Fx { raw: t as i128 }, point, normal: p.normal })
            } else {
                None
            }
        }
    }
}

impl Plane {
    /// Scene-ready: the base point within the world bounds, a
    /// unit-order normal, a well-formed material.
    pub open spec fn wf(self) -> bool {
        &&& self.point.bounded(COORD_LIMIT as int)
        &&& self.normal.bounded(UNIT_LIMIT as int)
        &&& self.material.wf()
    }

    /// The forward intersection, exactly as the mirror specification
    /// computes it.
    pub fn intersect(&self, ray: &Ray3) -> (r: Option<Intersection>)
        requires
            self.wf(),
            spec_ray_ok(*ray),
        ensures
            r == spec_plane_hit(*self, *ray),
            r matches Some(i) ==> i.ok() && i.ray == *ray,
    {
        let diff = self.point.minus(ray.origin);
        proof {
            lemma_bounded_widen(diff, COORD_LIMIT as int + RAY_ORIGIN_LIMIT as int, 0x40_0000_0000);
            lemma_bounded_widen(diff, 0x40_0000_0000, VEC_LIMIT as int);
            lemma_bounded_widen(self.normal, UNIT_LIMIT as int, VEC_LIMIT as int);
            lemma_bounded_widen(ray.direction, UNIT_LIMIT as int, VEC_LIMIT as int);
            lemma_dot_bound2(diff, self.normal, 0x40_0000_0000, UNIT_LIMIT as int);
            lemma_dot_bound2(ray.direction, self.normal, UNIT_LIMIT as int, UNIT_LIMIT as int);
        }
        let num = diff.dot(&self.normal);
        let den = ray.direction.dot(&self.normal);
        if den.raw == 0 {
            return None;
        }
        let t = num.fdiv(den);
        if !(t.raw > HIT_EPS) {
            return None;
        }
        if !(t.raw <= T_LIMIT) {
            proof {
                assert(!spec_hit_ok(
                    t.raw as int,
                    spec_point_at(*ray, t.raw as int),
                    self.normal,
                ));
            }
            return None;
        }
        let point = ray.point_at(t);
        if validate_hit(t, point, self.normal) {
            Some(Intersection { ray: *ray, t, point, normal: self.normal })
        } else {
            None
        }
    }
}

/// Sentinel for the slab test's running bounds: far outside any
/// representable hit distance.
pub const SLAB_SENTINEL: i128 = 0x1_0000_0000_0000_0000_0000_0000_0000;

/// The running state of the slab test: the entering and leaving
/// distances seen so far with their candidate face normals, and
/// whether the interval is still non-empty and forward.
#[derive(Clone, Copy, Debug)]
pub struct SlabState {
    pub tmin: Fx,
    pub vmin: Vector3,
    pub tmax: Fx,
    pub vmax: Vector3,
    pub alive: bool,
}

/// One slab of the box test, exactly as the executable code runs it.
/// A degenerate axis (zero length or an out-of-range normalized
/// direction) constrains nothing, like a parallel ray.
pub open spec fn spec_slab(
    st: SlabState,
    axis: Vector3,
    face_n: Vector3,
    p: Vector3,
    dir: Vector3,
) -> SlabState {
    if spec_len(axis) == 0 || !spec_norm(axis).bounded(UNIT_LIMIT as int) {
        st
    } else {
        let ai = spec_norm(axis);
        let len = spec_len(axis);
        let e = spec_dot(ai, p);
        let f = spec_dot(ai, dir);
        if f == 0 {
            st
        } else {
            let ta = spec_fdiv(e + len, f);
            let tb = spec_fdiv(e - len, f);
            let t1 = if ta > tb {
                tb
            } else {
                ta
            };
            let t2 = if ta > tb {
                ta
            } else {
                tb
            };
            let ntmin = if t1 > st.tmin.raw {
                Fx { raw: t1 as i128 }
            } else {
                st.tmin
            };
            let nvmin = if t1 > st.tmin.raw {
                face_n
            } else {
                st.vmin
            };
            let ntmax = if t2 < st.tmax.raw {
                Fx { raw: t2 as i128 }
            } else {
                st.tmax
            };
            let nvmax = if t2 < st.tmax.raw {
                face_n
            } else {
                st.vmax
            };
            SlabState {
                tmin: ntmin,
                vmin: nvmin,
                tmax: ntmax,
                vmax: nvmax,
                alive: st.alive && !(ntmin.raw > ntmax.raw || ntmax.raw < 0),
            }
        }
    }
}

/// The unrotated x half-extent axis of a box of the given size.
pub open spec fn spec_half_x(size: Vector3) -> Vector3 {
    Vector3 {
        x: Fx { raw: spec_fmul(size.x.raw as int, 32768) as i128 },
        y: Fx { raw: 0 },
        z: Fx { raw: 0 },
    }
}

/// The unrotated y half-extent axis of a box of the given size.
pub open spec fn spec_half_y(size: Vector3) -> Vector3 {
    Vector3 {
        x: Fx { raw: 0 },
        y: Fx { raw: spec_fmul(size.y.raw as int, 32768) as i128 },
        z: Fx { raw: 0 },
    }
}

/// The unrotated z half-extent axis of a box of the given size.
pub open spec fn spec_half_z(size: Vector3) -> Vector3 {
    Vector3 {
        x: Fx { raw: 0 },
        y: Fx { raw: 0 },
        z: Fx { raw: spec_fmul(size.z.raw as int, 32768) as i128 },
    }
}

/// An oriented box given by its center and three half-extent axes.
#[derive(Clone, Debug)]
pub struct Cube {
    pub center: Vector3,
    pub u: Vector3,
    pub v: Vector3,
    pub w: Vector3,
    pub material: Material,
}

/// Exact mirror of the slab phase of the box intersection: the hit
/// distance and the face normal flipped to oppose the ray, before
/// the hit point is formed.
pub open spec fn spec_cube_slab(c: Cube, ray: Ray3) -> Option<(Fx, Vector3)> {
    let p = spec_v3_sub(c.center, ray.origin);
    let s0 = SlabState {
        tmin: Fx { raw: (-SLAB_SENTINEL) as i128 },
        vmin: Vector3 { x: Fx { raw: 0 }, y: Fx { raw: 0 }, z: Fx { raw: 0 } },
        tmax: Fx { raw: SLAB_SENTINEL },
        vmax: Vector3 { x: Fx { raw: 0 }, y: Fx { raw: 0 }, z: Fx { raw: 0 } },
        alive: true,
    };
    let s1 = spec_slab(s0, c.u, spec_v3_cross(c.v, c.w), p, ray.direction);
    let s2 = spec_slab(s1, c.v, spec_v3_cross(c.w, c.u), p, ray.direction);
    let s3 = spec_slab(s2, c.w, spec_v3_cross(c.u, c.v), p, ray.direction);
    if !s3.alive {
        None
    } else {
        let t = if s3.tmin.raw > 0 {
            s3.tmin
        } else {
            s3.tmax
        };
        let vsel = if s3.tmin.raw > 0 {
            s3.vmin
        } else {
            s3.vmax
        };
        if t.raw > T_LIMIT || spec_len(vsel) == 0 || !spec_norm(vsel).bounded(
            UNIT_LIMIT as int,
        ) {
            None
        } else {
            let n0 = spec_norm(vsel);
            let n = if spec_dot(ray.direction, n0) > 0 {
                spec_v3_neg(n0)
            } else {
                n0
            };
            Some((t, n))
        }
    }
}

/// Exact mirror of the box intersection: the slab phase, then the
/// hit point a guard distance short of the surface, then the range
/// guard.
pub open spec fn spec_cube_hit(c: Cube, ray: Ray3) -> Option<Intersection> {
    match spec_cube_slab(c, ray) {
        None => None,
        Some((t, n)) => {
            let point = spec_point_at(ray, t.raw - HIT_EPS);
            if spec_hit_ok(t.raw as int, point, n) {
                Some(Intersection { ray, t, point, normal: n })
            } else {
                None
            }
        },
    }
}

/// One slab of the box test at run time.
fn slab(st: SlabState, axis: &Vector3, face_n: Vector3, p: &Vector3, dir: &Vector3) -> (r:
    SlabState)
    requires
        axis.bounded(COORD_LIMIT as int),
        p.bounded(0x40_0000_0000),
        dir.bounded(UNIT_LIMIT as int),
        -SLAB_SENTINEL <= st.tmin.raw <= SLAB_SENTINEL,
        -SLAB_SENTINEL <= st.tmax.raw <= SLAB_SENTINEL,
    ensures
        r == spec_slab(st, *axis, face_n, *p, *dir),
        -SLAB_SENTINEL <= r.tmin.raw <= SLAB_SENTINEL,
        -SLAB_SENTINEL <= r.tmax.raw <= SLAB_SENTINEL,
{
    proof {
        lemma_bounded_widen(*axis, COORD_LIMIT as int, VEC_LIMIT as int);
    }
    let ai_opt = axis.normalized();
    let ai: Vector3;
    match ai_opt {
        Some(a) => {
            ai = a;
        },
        None => {
            return st;
        },
    }
    let len = axis.length();
    proof {
        lemma_bounded_widen(ai, UNIT_LIMIT as int, VEC_LIMIT as int);
        lemma_bounded_widen(*p, 0x40_0000_0000, VEC_LIMIT as int);
        lemma_bounded_widen(*dir, UNIT_LIMIT as int, VEC_LIMIT as int);
        lemma_dot_bound2(ai, *p, UNIT_LIMIT as int, 0x40_0000_0000);
        lemma_dot_bound2(ai, *dir, UNIT_LIMIT as int, UNIT_LIMIT as int);
        lemma_len_bound(*axis, COORD_LIMIT as int);
    }
    let e = ai.dot(p);
    let f = ai.dot(dir);
    if f.raw == 0 {
        return st;
    }
    let ta = e.fadd(len).fdiv(f);
    let tb = e.fsub(len).fdiv(f);
    let t1 = if ta.raw > tb.raw {
        tb
    } else {
        ta
    };
    let t2 = if ta.raw > tb.raw {
        ta
    } else {
        tb
    };
    let ntmin = if t1.raw > st.tmin.raw {
        t1
    } else {
        st.tmin
    };
    let nvmin = if t1.raw > st.tmin.raw {
        face_n
    } else {
        st.vmin
    };
    let ntmax = if t2.raw < st.tmax.raw {
        t2
    } else {
        st.tmax
    };
    let nvmax = if t2.raw < st.tmax.raw {
        face_n
    } else {
        st.vmax
    };
    SlabState {
        tmin: ntmin,
        vmin: nvmin,
        tmax: ntmax,
        vmax: nvmax,
        alive: st.alive && !(ntmin.raw > ntmax.raw || ntmax.raw < 0),
    }
}

/// The length of an `m`-bounded vector is within the same order.
proof fn lemma_len_bound(v: Vector3, m: int)
    requires
        v.bounded(m),
        0 <= m <= COORD_LIMIT,
    ensures
        0 <= spec_len(v) <= 0x2_0000_0000,
{
    lemma_dot_bound(v, v, m);
    lemma_dot_bound(v, v, COORD_LIMIT as int);
    let d = spec_dot(v, v);
    crate::vector::lemma_dot_self_nonneg(v);
    let l = spec_isqrt((d * SCALE) as nat);
    crate::fixed::lemma_isqrt_brackets((d * SCALE) as nat);
    assert(d * SCALE <= 0x4_0000_0000_0000 * SCALE) by (nonlinear_arith)
        requires
            0 <= d <= 0x4_0000_0000_0000,
    ;
    assert(l <= 0x2_0000_0000) by (nonlinear_arith)
        requires
            l * l <= d * SCALE,
            d * SCALE <= 0x4_0000_0000_0000 * 65536,
            l >= 0,
    ;
}

impl Cube {
    /// Scene-ready: center and half-extent axes within the world
    /// bounds, a well-formed material.
    pub open spec fn wf(self) -> bool {
        &&& self.center.bounded(COORD_LIMIT as int)
        &&& self.u.bounded(COORD_LIMIT as int)
        &&& self.v.bounded(COORD_LIMIT as int)
        &&& self.w.bounded(COORD_LIMIT as int)
        &&& self.material.wf()
    }

    /// An oriented box: the half-extents of `size` rotated about the
    /// three axes by `rotation` (in turns). An unrotated box keeps
    /// its exact half-extent axes; a rotated one carries the composed
    /// rotation's exact image of each half-extent, falling back to
    /// the unrotated axis in the (out-of-range) degenerate case so
    /// the box always stays scene-ready.
    pub fn new(center: Vector3, size: Vector3, rotation: Vector3, material: Material) -> (c:
        Cube)
        requires
            center.bounded(COORD_LIMIT as int),
            size.bounded(COORD_LIMIT as int),
            rotation.bounded((TURN_LIMIT - 16384) as int),
            material.wf(),
        ensures
            c.wf(),
            c.center == center,
            c.material == material,
            rotation.x.raw == 0 && rotation.y.raw == 0 && rotation.z.raw == 0 ==> {
                &&& c.u == spec_half_x(size)
                &&& c.v == spec_half_y(size)
                &&& c.w == spec_half_z(size)
            },
            !(rotation.x.raw == 0 && rotation.y.raw == 0 && rotation.z.raw == 0) ==> {
                &&& c.u == spec_clamp_axis(spec_rotated(rotation, spec_half_x(size)), spec_half_x(size))
                &&& c.v == spec_clamp_axis(spec_rotated(rotation, spec_half_y(size)), spec_half_y(size))
                &&& c.w == spec_clamp_axis(spec_rotated(rotation, spec_half_z(size)), spec_half_z(size))
            },
    {
        let half = Fx { raw: 32768 };
        proof {
            lemma_fmul_bound(size.x.raw as int, 32768, COORD_LIMIT as int, 32768);
            lemma_fmul_bound(size.y.raw as int, 32768, COORD_LIMIT as int, 32768);
            lemma_fmul_bound(size.z.raw as int, 32768, COORD_LIMIT as int, 32768);
        }
        let hx = size.x.fmul(half);
        let hy = size.y.fmul(half);
        let hz = size.z.fmul(half);
        let zero = Fx { raw: 0 };
        let ux = Vector3 { x: hx, y: zero, z: zero };
        let vy = Vector3 { x: zero, y: hy, z: zero };
        let wz = Vector3 { x: zero, y: zero, z: hz };
        if rotation.x.raw == 0 && rotation.y.raw == 0 && rotation.z.raw == 0 {
            return Cube { center, u: ux, v: vy, w: wz, material };
        }
        let rx = Matrix4::rotation_x(rotation.x);
        let ry = Matrix4::rotation_y(rotation.y);
        let rz = Matrix4::rotation_z(rotation.z);
        proof {
            lemma_mat_widen(rx, SCALE as int, MAT_LIMIT as int);
            lemma_mat_widen(ry, SCALE as int, MAT_LIMIT as int);
            lemma_mat_widen(rz, SCALE as int, MAT_LIMIT as int);
            assert forall|i: int, j: int|
                0 <= i < 4 && 0 <= j < 4 implies (#[trigger] rx.0[i][j].raw as int)
                == spec_rx_entry(rotation.x.raw as int, i, j) by {}
            assert forall|i: int, j: int|
                0 <= i < 4 && 0 <= j < 4 implies (#[trigger] ry.0[i][j].raw as int)
                == spec_ry_entry(rotation.y.raw as int, i, j) by {}
            assert forall|i: int, j: int|
                0 <= i < 4 && 0 <= j < 4 implies (#[trigger] rz.0[i][j].raw as int)
                == spec_rz_entry(rotation.z.raw as int, i, j) by {}
        }
        let rxy = rx.times(&ry);
        proof {
            lemma_times_bounded(rx, ry, rxy, SCALE as int, SCALE as int);
            lemma_mat_widen(rxy, 4 * SCALE as int, MAT_LIMIT as int);
            assert forall|i: int, j: int|
                0 <= i < 4 && 0 <= j < 4 implies (#[trigger] rxy.0[i][j].raw as int)
                == spec_rxy_entry(rotation.x.raw as int, rotation.y.raw as int, i, j) by {}
        }
        let m = rxy.times(&rz);
        proof {
            lemma_times_bounded(rxy, rz, m, 4 * SCALE as int, SCALE as int);
            lemma_mat_widen(m, 16 * SCALE as int, MAT_LIMIT as int);
            assert forall|i: int, j: int|
                0 <= i < 4 && 0 <= j < 4 implies (#[trigger] m.0[i][j].raw as int)
                == spec_rot_entry(rotation, i, j) by {}
        }
        let u0 = m.transform_vector3(ux);
        let v0 = m.transform_vector3(vy);
        let w0 = m.transform_vector3(wz);
        proof {
            assert(u0 == spec_rotated(rotation, spec_half_x(size)));
            assert(v0 == spec_rotated(rotation, spec_half_y(size)));
            assert(w0 == spec_rotated(rotation, spec_half_z(size)));
        }
        let u = clamp_axis(u0, ux);
        let v = clamp_axis(v0, vy);
        let w = clamp_axis(w0, wz);
        Cube { center, u, v, w, material }
    }

    /// The nearest slab-test intersection, exactly as the mirror
    /// specification computes it, with the reported normal flipped to
    /// oppose the incoming ray.
    pub fn intersect(&self, ray: &Ray3) -> (r: Option<Intersection>)
        requires
            self.wf(),
            spec_ray_ok(*ray),
        ensures
            r == spec_cube_hit(*self, *ray),
            r matches Some(i) ==> i.ok() && i.ray == *ray,
            r matches Some(i) ==> spec_dot(i.ray.direction, i.normal) <= 0,
    {
        if let Some((t, normal)) = self.intersection_with_normal(ray) {
            proof {
                lemma_fmul_bound(
                    ray.direction.x.raw as int,
                    t.raw - HIT_EPS,
                    UNIT_LIMIT as int,
                    T_LIMIT as int,
                );
                lemma_fmul_bound(
                    ray.direction.y.raw as int,
                    t.raw - HIT_EPS,
                    UNIT_LIMIT as int,
                    T_LIMIT as int,
                );
                lemma_fmul_bound(
                    ray.direction.z.raw as int,
                    t.raw - HIT_EPS,
                    UNIT_LIMIT as int,
                    T_LIMIT as int,
                );
            }
            let point = ray.point_at(t.fsub(Fx { raw: HIT_EPS }));
            if validate_hit(t, point, normal) {
                Some(Intersection { ray: *ray, t, point, normal })
            } else {
                None
            }
        } else {
            None
        }
    }

    /// The slab test alone: the hit distance and the un-offset face
    /// normal, flipped to oppose the ray, when the three slabs leave
    /// a forward interval.
    pub fn intersection_with_normal(&self, ray: &Ray3) -> (r: Option<(Fx, Vector3)>)
        requires
            self.wf(),
            spec_ray_ok(*ray),
        ensures
            r == spec_cube_slab(*self, *ray),
            r matches Some((t, n)) ==> 0 <= t.raw <= T_LIMIT && n.bounded(UNIT_LIMIT as int)
                && spec_dot(ray.direction, n) <= 0,
    {
        let p = self.center.minus(ray.origin);
        proof {
            lemma_bounded_widen(self.u, COORD_LIMIT as int, VEC_LIMIT as int);
            lemma_bounded_widen(self.v, COORD_LIMIT as int, VEC_LIMIT as int);
            lemma_bounded_widen(self.w, COORD_LIMIT as int, VEC_LIMIT as int);
        }
        let s0 = SlabState {
            tmin: Fx { raw: -SLAB_SENTINEL },
            vmin: Vector3::zero(),
            tmax: Fx { raw: SLAB_SENTINEL },
            vmax: Vector3::zero(),
            alive: true,
        };
        let s1 = slab(s0, &self.u, self.v.cross(&self.w), &p, &ray.direction);
        let s2 = slab(s1, &self.v, self.w.cross(&self.u), &p, &ray.direction);
        let s3 = slab(s2, &self.w, self.u.cross(&self.v), &p, &ray.direction);
        if !s3.alive {
            return None;
        }
        let t: Fx;
        let vsel: Vector3;
        if s3.tmin.raw > 0 {
            t = s3.tmin;
            vsel = s3.vmin;
        } else {
            t = s3.tmax;
            vsel = s3.vmax;
        }
        if t.raw > T_LIMIT {
            return None;
        }
        proof {
            lemma_slab_vectors_bounded(*self, *ray, s0, s1, s2, s3);
            lemma_bounded_widen(vsel, 0x4_0000_0000_0000, VEC_LIMIT as int);
        }
        let n0_opt = vsel.normalized();
        let n0: Vector3;
        match n0_opt {
            Some(n) => {
                n0 = n;
            },
            None => {
                return None;
            },
        }
        proof {
            lemma_bounded_widen(n0, UNIT_LIMIT as int, VEC_LIMIT as int);
            lemma_bounded_widen(ray.direction, UNIT_LIMIT as int, VEC_LIMIT as int);
        }
        let d = ray.direction.dot(&n0);
        let n = if d.raw > 0 {
            proof {
                lemma_bounded_widen(n0, UNIT_LIMIT as int, 0x10_0000_0000_0000_0000_0000_0000);
                lemma_dot_neg(ray.direction, n0);
            }
            n0.negate()
        } else {
            n0
        };
        Some((t, n))
    }
}

/// A rotated axis when it stays within the world bounds; its
/// unrotated original otherwise.
pub open spec fn spec_clamp_axis(rotated: Vector3, fallback: Vector3) -> Vector3 {
    if rotated.bounded(COORD_LIMIT as int) {
        rotated
    } else {
        fallback
    }
}

/// Keeps a rotated axis when it stays within the world bounds; falls
/// back to its unrotated original otherwise.
fn clamp_axis(rotated: Vector3, fallback: Vector3) -> (r: Vector3)
    requires
        fallback.bounded(COORD_LIMIT as int),
    ensures
        r == spec_clamp_axis(rotated, fallback),
        r.bounded(COORD_LIMIT as int),
        rotated.bounded(COORD_LIMIT as int) ==> r == rotated,
{
    if -COORD_LIMIT <= rotated.x.raw && rotated.x.raw <= COORD_LIMIT && -COORD_LIMIT
        <= rotated.y.raw && rotated.y.raw <= COORD_LIMIT && -COORD_LIMIT <= rotated.z.raw
        && rotated.z.raw <= COORD_LIMIT {
        rotated
    } else {
        fallback
    }
}

/// A matrix bound weakens to any larger one.
proof fn lemma_mat_widen(m: Matrix4, m1: int, m2: int)
    requires
        m.bounded(m1),
        m1 <= m2,
    ensures
        m.bounded(m2),
{
}

/// The product of two bounded matrices is bounded entrywise.
proof fn lemma_times_bounded(a: Matrix4, b: Matrix4, r: Matrix4, m1: int, m2: int)
    requires
        a.bounded(m1),
        b.bounded(m2),
        m1 >= 0,
        m2 >= 0,
        forall|i: int, j: int|
            0 <= i < 4 && 0 <= j < 4 ==> (#[trigger] r.0[i][j].raw as int)
                == crate::matrix::spec_mat_entry(a, b, i, j),
    ensures
        r.bounded(4 * ((m1 * m2) / (SCALE as int))),
{
    assert forall|i: int, j: int| 0 <= i < 4 && 0 <= j < 4 implies abs(
        #[trigger] r.0[i][j].raw as int,
    ) <= 4 * ((m1 * m2) / (SCALE as int)) by {
        crate::matrix::lemma_mat_entry_bound(a, b, m1, m2, i, j);
    }
}

/// The face normals carried through the slab states are cross
/// products of the box axes, so their magnitudes stay bounded.
proof fn lemma_slab_vectors_bounded(c: Cube, ray: Ray3, s0: SlabState, s1: SlabState, s2:
    SlabState, s3: SlabState)
    requires
        c.wf(),
        spec_ray_ok(ray),
        s0 == (SlabState {
            tmin: Fx { raw: (-SLAB_SENTINEL) as i128 },
            vmin: Vector3 { x: Fx { raw: 0 }, y: Fx { raw: 0 }, z: Fx { raw: 0 } },
            tmax: Fx { raw: SLAB_SENTINEL },
            vmax: Vector3 { x: Fx { raw: 0 }, y: Fx { raw: 0 }, z: Fx { raw: 0 } },
            alive: true,
        }),
        s1 == spec_slab(s0, c.u, spec_v3_cross(c.v, c.w), spec_v3_sub(c.center, ray.origin), ray.direction),
        s2 == spec_slab(s1, c.v, spec_v3_cross(c.w, c.u), spec_v3_sub(c.center, ray.origin), ray.direction),
        s3 == spec_slab(s2, c.w, spec_v3_cross(c.u, c.v), spec_v3_sub(c.center, ray.origin), ray.direction),
    ensures
        s3.vmin.bounded(0x4_0000_0000_0000),
        s3.vmax.bounded(0x4_0000_0000_0000),
{
    lemma_cross_bound(c.v, c.w);
    lemma_cross_bound(c.w, c.u);
    lemma_cross_bound(c.u, c.v);
}

/// A cross product of world-bounded vectors stays well within the
/// slab-normal bound.
proof fn lemma_cross_bound(a: Vector3, b: Vector3)
    requires
        a.bounded(COORD_LIMIT as int),
        b.bounded(COORD_LIMIT as int),
    ensures
        spec_v3_cross(a, b).bounded(0x4_0000_0000_0000),
{
    lemma_fmul_bound(a.y.raw as int, b.z.raw as int, COORD_LIMIT as int, COORD_LIMIT as int);
    lemma_fmul_bound(a.z.raw as int, b.y.raw as int, COORD_LIMIT as int, COORD_LIMIT as int);
    lemma_fmul_bound(a.z.raw as int, b.x.raw as int, COORD_LIMIT as int, COORD_LIMIT as int);
    lemma_fmul_bound(a.x.raw as int, b.z.raw as int, COORD_LIMIT as int, COORD_LIMIT as int);
    lemma_fmul_bound(a.x.raw as int, b.y.raw as int, COORD_LIMIT as int, COORD_LIMIT as int);
    lemma_fmul_bound(a.y.raw as int, b.x.raw as int, COORD_LIMIT as int, COORD_LIMIT as int);
}

/// Negating the second argument negates a dot product.
proof fn lemma_dot_neg(a: Vector3, b: Vector3)
    ensures
        spec_dot(a, spec_v3_neg(b)) == -spec_dot(a, b) || !b.bounded(
            0x10_0000_0000_0000_0000_0000_0000,
        ),
{
    if b.bounded(0x10_0000_0000_0000_0000_0000_0000) {
        lemma_fmul_neg(a.x.raw as int, b.x.raw as int);
        lemma_fmul_neg(a.y.raw as int, b.y.raw as int);
        lemma_fmul_neg(a.z.raw as int, b.z.raw as int);
    }
}

/// Negating one factor negates a truncated fixed product.
proof fn lemma_fmul_neg(a: int, b: int)
    ensures
        spec_fmul(a, -b) == -spec_fmul(a, b),
{
    assert(a * (-b) == -(a * b)) by (nonlinear_arith);
}


/// The closed set of geometric primitives a scene can hold.
#[derive(Clone, Debug)]
pub enum Hitable {
    Sphere(Sphere),
    Plane(Plane),
    Cube(Cube),
}

/// The nearest forward intersection of a ray with one primitive.
pub open spec fn spec_hit(h: Hitable, ray: Ray3) -> Option<Intersection> {
    match h {
        Hitable::Sphere(s) => spec_sphere_hit(s, ray),
        Hitable::Plane(p) => spec_plane_hit(p, ray),
        Hitable::Cube(c) => spec_cube_hit(c, ray),
    }
}

impl Hitable {
    /// The wrapped primitive's own well-formedness.
    pub open spec fn wf(self) -> bool {
        match self {
            Hitable::Sphere(s) => s.wf(),
            Hitable::Plane(p) => p.wf(),
            Hitable::Cube(c) => c.wf(),
        }
    }

    /// The material bound to the primitive.
    pub open spec fn spec_material(self) -> Material {
        match self {
            Hitable::Sphere(s) => s.material,
            Hitable::Plane(p) => p.material,
            Hitable::Cube(c) => c.material,
        }
    }

    /// Borrows the material bound to the primitive.
    pub fn material(&self) -> (m: &Material)
        ensures
            *m == self.spec_material(),
    {
        match self {
            Hitable::Sphere(s) => &s.material,
            Hitable::Plane(p) => &p.material,
            Hitable::Cube(c) => &c.material,
        }
    }

    /// The nearest forward intersection, exactly as the wrapped
    /// primitive's mirror specification computes it.
    pub fn intersect(&self, ray: &Ray3) -> (r: Option<Intersection>)
        requires
            self.wf(),
            spec_ray_ok(*ray),
        ensures
            r == spec_hit(*self, *ray),
            r matches Some(i) ==> i.ok() && i.ray == *ray,
    {
        match self {
            Hitable::Sphere(s) => s.intersect(ray),
            Hitable::Plane(p) => p.intersect(ray),
            Hitable::Cube(c) => c.intersect(ray),
        }
    }
}


/// Checks a componentwise magnitude bound at run time.
fn vec_within(v: &Vector3, m: i128) -> (r: bool)
    requires
        m >= 0,
    ensures
        r == v.bounded(m as int),
{
    -m <= v.x.raw && v.x.raw <= m && -m <= v.y.raw && v.y.raw <= m && -m <= v.z.raw
        && v.z.raw <= m
}

impl Hitable {
    /// Checks `wf` at run time, for callers that assemble scenes
    /// outside the library's constructors.
    pub fn check_wf(&self) -> (r: bool)
        ensures
            r == self.wf(),
    {
        match self {
            Hitable::Sphere(s) => vec_within(&s.center, COORD_LIMIT) && 0 < s.radius.raw
                && s.radius.raw <= COORD_LIMIT && s.material.check_wf(),
            Hitable::Plane(p) => vec_within(&p.point, COORD_LIMIT) && vec_within(
                &p.normal,
                UNIT_LIMIT,
            ) && p.material.check_wf(),
            Hitable::Cube(c) => vec_within(&c.center, COORD_LIMIT) && vec_within(
                &c.u,
                COORD_LIMIT,
            ) && vec_within(&c.v, COORD_LIMIT) && vec_within(&c.w, COORD_LIMIT)
                && c.material.check_wf(),
        }
    }
}

} // verus!
