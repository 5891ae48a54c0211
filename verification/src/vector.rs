//! 2- and 3-component vectors over the fixed-point scalar, with the
//! dot/cross products, reflection and normalization the tracer needs.
//! Every operation states its exact componentwise result; magnitude
//! preconditions rule out overflow.

use vstd::prelude::*;

verus! {

use vstd::math::abs;
use crate::fixed::{Fx, SCALE, MUL_LIMIT, spec_fmul, spec_fdiv, spec_isqrt, CloseEq};
use crate::fixed::{lemma_fmul_bound, lemma_fdiv_bound};

/// Largest component magnitude accepted by the componentwise sum and
/// difference operations.
pub const ADD_LIMIT: i128 = 0x10_0000_0000_0000_0000_0000_0000;

/// Largest component magnitude accepted by the product-forming vector
/// operations (`dot`, `cross`, `length`, `reflect`).
pub const VEC_LIMIT: i128 = 0x4_0000_0000_0000;

/// Components of a direction returned by `normalized` stay within two
/// whole units of the origin.
pub const UNIT_LIMIT: i128 = 131072;

/// A point on the unit square: a pair of fixed-point coordinates.
#[derive(Clone, Copy, Debug, PartialEq, Eq, Structural)]
pub struct Vector2 {
    pub x: Fx,
    pub y: Fx,
}

impl Vector2 {
    pub fn new(x: Fx, y: Fx) -> (r: Vector2)
        ensures
            r == (Vector2 { x, y }),
    {
        Vector2 { x, y }
    }

    /// Componentwise sum; exact.
    pub fn plus(self, rhs: Vector2) -> (r: Vector2)
        requires
            self.bounded(ADD_LIMIT as int),
            rhs.bounded(ADD_LIMIT as int),
        ensures
            r.x.raw == self.x.raw + rhs.x.raw,
            r.y.raw == self.y.raw + rhs.y.raw,
    {
        Vector2 { x: self.x.fadd(rhs.x), y: self.y.fadd(rhs.y) }
    }

    /// Componentwise difference; exact.
    pub fn minus(self, rhs: Vector2) -> (r: Vector2)
        requires
            self.bounded(ADD_LIMIT as int),
            rhs.bounded(ADD_LIMIT as int),
        ensures
            r.x.raw == self.x.raw - rhs.x.raw,
            r.y.raw == self.y.raw - rhs.y.raw,
    {
        Vector2 { x: self.x.fsub(rhs.x), y: self.y.fsub(rhs.y) }
    }

    /// Both components scaled by `f`; truncated fixed-point products.
    pub fn scaled(self, f: Fx) -> (r: Vector2)
        requires
            self.bounded(MUL_LIMIT as int),
            -MUL_LIMIT <= f.raw <= MUL_LIMIT,
        ensures
            r.x.raw == spec_fmul(self.x.raw as int, f.raw as int),
            r.y.raw == spec_fmul(self.y.raw as int, f.raw as int),
    {
        Vector2 { x: self.x.fmul(f), y: self.y.fmul(f) }
    }

    /// Both component magnitudes are at most `m`.
    pub open spec fn bounded(self, m: int) -> bool {
        abs(self.x.raw as int) <= m && abs(self.y.raw as int) <= m
    }
}

/// A point or direction in space: three fixed-point coordinates.
#[derive(Clone, Copy, Debug, PartialEq, Eq, Structural)]
pub struct Vector3 {
    pub x: Fx,
    pub y: Fx,
    pub z: Fx,
}

/// Exact value of the fixed-point dot product of `a` and `b`.
pub open spec fn spec_dot(a: Vector3, b: Vector3) -> int {
    spec_fmul(a.x.raw as int, b.x.raw as int) + spec_fmul(a.y.raw as int, b.y.raw as int)
        + spec_fmul(a.z.raw as int, b.z.raw as int)
}

/// Exact length of `v`: the truncated square root of its squared length.
pub open spec fn spec_len(v: Vector3) -> int {
    spec_isqrt((spec_dot(v, v) * SCALE) as nat) as int
}

impl Vector3 {
    pub fn new(x: Fx, y: Fx, z: Fx) -> (r: Vector3)
        ensures
            r == (Vector3 { x, y, z }),
    {
        Vector3 { x, y, z }
    }

    pub fn zero() -> (r: Vector3)
        ensures
            r.x.raw == 0,
            r.y.raw == 0,
            r.z.raw == 0,
    {
        Vector3 { x: Fx::zero(), y: Fx::zero(), z: Fx::zero() }
    }

    /// All three component magnitudes are at most `m`.
    pub open spec fn bounded(self, m: int) -> bool {
        abs(self.x.raw as int) <= m && abs(self.y.raw as int) <= m && abs(self.z.raw as int)
            <= m
    }

    /// Componentwise sum; exact.
    pub fn plus(self, rhs: Vector3) -> (r: Vector3)
        requires
            self.bounded(ADD_LIMIT as int),
            rhs.bounded(ADD_LIMIT as int),
        ensures
            r.x.raw == self.x.raw + rhs.x.raw,
            r.y.raw == self.y.raw + rhs.y.raw,
            r.z.raw == self.z.raw + rhs.z.raw,
            r == spec_v3_add(self, rhs),
    {
        Vector3 { x: self.x.fadd(rhs.x), y: self.y.fadd(rhs.y), z: self.z.fadd(rhs.z) }
    }

    /// Componentwise difference; exact.
    pub fn minus(self, rhs: Vector3) -> (r: Vector3)
        requires
            self.bounded(ADD_LIMIT as int),
            rhs.bounded(ADD_LIMIT as int),
        ensures
            r.x.raw == self.x.raw - rhs.x.raw,
            r.y.raw == self.y.raw - rhs.y.raw,
            r.z.raw == self.z.raw - rhs.z.raw,
            r == spec_v3_sub(self, rhs),
    {
        Vector3 { x: self.x.fsub(rhs.x), y: self.y.fsub(rhs.y), z: self.z.fsub(rhs.z) }
    }

    /// Componentwise negation; exact.
    pub fn negate(self) -> (r: Vector3)
        requires
            self.bounded(ADD_LIMIT as int),
        ensures
            r.x.raw == -self.x.raw,
            r.y.raw == -self.y.raw,
            r.z.raw == -self.z.raw,
            r == spec_v3_neg(self),
    {
        Vector3 { x: self.x.fneg(), y: self.y.fneg(), z: self.z.fneg() }
    }

    /// All components scaled by `f`; truncated fixed-point products.
    pub fn scaled(self, f: Fx) -> (r: Vector3)
        requires
            self.bounded(MUL_LIMIT as int),
            -MUL_LIMIT <= f.raw <= MUL_LIMIT,
        ensures
            r.x.raw == spec_fmul(self.x.raw as int, f.raw as int),
            r.y.raw == spec_fmul(self.y.raw as int, f.raw as int),
            r.z.raw == spec_fmul(self.z.raw as int, f.raw as int),
            r == spec_v3_scale(self, f.raw as int),
    {
        Vector3 { x: self.x.fmul(f), y: self.y.fmul(f), z: self.z.fmul(f) }
    }

    /// All components divided by `f`; truncated fixed-point
    /// quotients.
    pub fn divided(self, f: Fx) -> (r: Vector3)
        requires
            self.bounded(MUL_LIMIT as int),
            f.raw != 0,
            f.raw > i128::MIN,
        ensures
            r == spec_v3_div(self, f.raw as int),
    {
        proof {
            lemma_fdiv_bound(self.x.raw as int, f.raw as int, MUL_LIMIT as int);
            lemma_fdiv_bound(self.y.raw as int, f.raw as int, MUL_LIMIT as int);
            lemma_fdiv_bound(self.z.raw as int, f.raw as int, MUL_LIMIT as int);
        }
        Vector3 { x: self.x.fdiv(f), y: self.y.fdiv(f), z: self.z.fdiv(f) }
    }

    /// Dot product; exact.
    pub fn dot(&self, other: &Vector3) -> (r: Fx)
        requires
            self.bounded(VEC_LIMIT as int),
            other.bounded(VEC_LIMIT as int),
        ensures
            r.raw == spec_dot(*self, *other),
    {
        proof {
            lemma_dot_terms_bounded(*self, *other);
        }
        self.x.fmul(other.x).fadd(self.y.fmul(other.y)).fadd(self.z.fmul(other.z))
    }

    /// Squared length; exact, and never negative.
    pub fn length_squared(&self) -> (r: Fx)
        requires
            self.bounded(VEC_LIMIT as int),
        ensures
            r.raw == spec_dot(*self, *self),
            r.raw >= 0,
    {
        proof {
            lemma_dot_self_nonneg(*self);
        }
        self.dot(self)
    }

    /// Length; the truncated square root of the squared length.
    pub fn length(&self) -> (r: Fx)
        requires
            self.bounded(VEC_LIMIT as int),
        ensures
            r.raw == spec_len(*self),
            r.raw >= 0,
    {
        proof {
            lemma_dot_self_nonneg(*self);
            lemma_dot_self_bound(*self);
        }
        self.length_squared().fsqrt()
    }

    /// Cross product; exact.
    pub fn cross(&self, other: &Vector3) -> (r: Vector3)
        requires
            self.bounded(VEC_LIMIT as int),
            other.bounded(VEC_LIMIT as int),
        ensures
            r.x.raw == spec_fmul(self.y.raw as int, other.z.raw as int) - spec_fmul(
                self.z.raw as int,
                other.y.raw as int,
            ),
            r.y.raw == spec_fmul(self.z.raw as int, other.x.raw as int) - spec_fmul(
                self.x.raw as int,
                other.z.raw as int,
            ),
            r.z.raw == spec_fmul(self.x.raw as int, other.y.raw as int) - spec_fmul(
                self.y.raw as int,
                other.x.raw as int,
            ),
            r == spec_v3_cross(*self, *other),
    {
        proof {
            lemma_dot_terms_bounded(*self, *other);
            lemma_dot_terms_bounded(*other, *self);
        }
        Vector3 {
            x: self.y.fmul(other.z).fsub(self.z.fmul(other.y)),
            y: self.z.fmul(other.x).fsub(self.x.fmul(other.z)),
            z: self.x.fmul(other.y).fsub(self.y.fmul(other.x)),
        }
    }

    /// Direction of `self` with length one unit, or `None` when the
    /// length truncates to zero or a quotient leaves the unit
    /// neighbourhood (a degenerate input; the caller treats it as an
    /// absorbed path).
    pub fn normalized(&self) -> (r: Option<Vector3>)
        requires
            self.bounded(VEC_LIMIT as int),
        ensures
            r is Some <==> spec_len(*self) != 0 && spec_norm(*self).bounded(UNIT_LIMIT as int),
            r is Some ==> r->0 == spec_norm(*self),
    {
        let len = self.length();
        if len.raw == 0 {
            return None;
        }
        proof {
            lemma_fdiv_bound(self.x.raw as int, len.raw as int, VEC_LIMIT as int);
            lemma_fdiv_bound(self.y.raw as int, len.raw as int, VEC_LIMIT as int);
            lemma_fdiv_bound(self.z.raw as int, len.raw as int, VEC_LIMIT as int);
        }
        let out = Vector3 {
            x: self.x.fdiv(len),
            y: self.y.fdiv(len),
            z: self.z.fdiv(len),
        };
        if out.x.raw < -UNIT_LIMIT || out.x.raw > UNIT_LIMIT || out.y.raw < -UNIT_LIMIT
            || out.y.raw > UNIT_LIMIT || out.z.raw < -UNIT_LIMIT || out.z.raw > UNIT_LIMIT {
            return None;
        }
        Some(out)
    }

    /// Replaces `self` by its normalized direction when one exists;
    /// reports whether it did.
    pub fn normalize(&mut self) -> (ok: bool)
        requires
            old(self).bounded(VEC_LIMIT as int),
        ensures
            ok <==> spec_len(*old(self)) != 0 && spec_norm(*old(self)).bounded(
                UNIT_LIMIT as int,
            ),
            ok ==> *final(self) == spec_norm(*old(self)),
            !ok ==> *final(self) == *old(self),
    {
        match self.normalized() {
            Some(v) => {
                *self = v;
                true
            },
            None => false,
        }
    }

    /// Mirror image about `reflector`: `self - 2 (self . reflector) reflector`.
    /// Meant for directions; the inputs stay within `REFLECT_LIMIT`.
    pub fn reflect(&self, reflector: &Vector3) -> (r: Vector3)
        requires
            self.bounded(REFLECT_LIMIT as int),
            reflector.bounded(REFLECT_LIMIT as int),
        ensures
            r == spec_reflect(*self, *reflector),
    {
        proof {
            lemma_bounded_widen(*self, REFLECT_LIMIT as int, VEC_LIMIT as int);
            lemma_bounded_widen(*reflector, REFLECT_LIMIT as int, VEC_LIMIT as int);
        }
        let d = self.dot(reflector);
        proof {
            lemma_dot_bound(*self, *reflector, REFLECT_LIMIT as int);
            let d2 = 2 * spec_dot(*self, *reflector);
            lemma_fmul_bound(reflector.x.raw as int, d2, REFLECT_LIMIT as int, MUL_LIMIT as int);
            lemma_fmul_bound(reflector.y.raw as int, d2, REFLECT_LIMIT as int, MUL_LIMIT as int);
            lemma_fmul_bound(reflector.z.raw as int, d2, REFLECT_LIMIT as int, MUL_LIMIT as int);
        }
        let twice = d.fadd(d);
        self.minus(reflector.scaled(twice))
    }
}

/// Largest component magnitude accepted by `reflect`.
pub const REFLECT_LIMIT: i128 = 0x4000_0000;

/// A componentwise bound weakens to any larger one.
pub proof fn lemma_bounded_widen(v: Vector3, m1: int, m2: int)
    requires
        v.bounded(m1),
        m1 <= m2,
    ensures
        v.bounded(m2),
{
}

impl CloseEq for Vector3 {
    open spec fn close_wf(&self, rhs: &Vector3) -> bool {
        &&& self.x.close_wf(&rhs.x)
        &&& self.y.close_wf(&rhs.y)
        &&& self.z.close_wf(&rhs.z)
    }

    /// Close when every component is close.
    open spec fn close_spec(&self, rhs: &Vector3) -> bool {
        &&& self.x.close_spec(&rhs.x)
        &&& self.y.close_spec(&rhs.y)
        &&& self.z.close_spec(&rhs.z)
    }

    fn close_eq(&self, rhs: &Vector3) -> (r: bool) {
        self.x.close_eq(&rhs.x) && self.y.close_eq(&rhs.y) && self.z.close_eq(&rhs.z)
    }

    fn close_ne(&self, rhs: &Vector3) -> (r: bool) {
        !self.close_eq(rhs)
    }
}

/// Exact componentwise sum.
pub open spec fn spec_v3_add(a: Vector3, b: Vector3) -> Vector3 {
    Vector3 {
        x: Fx { raw: (a.x.raw + b.x.raw) as i128 },
        y: Fx { raw: (a.y.raw + b.y.raw) as i128 },
        z: Fx { raw: (a.z.raw + b.z.raw) as i128 },
    }
}

/// Exact componentwise difference.
pub open spec fn spec_v3_sub(a: Vector3, b: Vector3) -> Vector3 {
    Vector3 {
        x: Fx { raw: (a.x.raw - b.x.raw) as i128 },
        y: Fx { raw: (a.y.raw - b.y.raw) as i128 },
        z: Fx { raw: (a.z.raw - b.z.raw) as i128 },
    }
}

/// Exact componentwise negation.
pub open spec fn spec_v3_neg(a: Vector3) -> Vector3 {
    Vector3 {
        x: Fx { raw: (-a.x.raw) as i128 },
        y: Fx { raw: (-a.y.raw) as i128 },
        z: Fx { raw: (-a.z.raw) as i128 },
    }
}

/// Exact componentwise scaling by the raw scalar `k`.
pub open spec fn spec_v3_scale(a: Vector3, k: int) -> Vector3 {
    Vector3 {
        x: Fx { raw: spec_fmul(a.x.raw as int, k) as i128 },
        y: Fx { raw: spec_fmul(a.y.raw as int, k) as i128 },
        z: Fx { raw: spec_fmul(a.z.raw as int, k) as i128 },
    }
}

/// Exact cross product.
pub open spec fn spec_v3_cross(a: Vector3, b: Vector3) -> Vector3 {
    Vector3 {
        x: Fx {
            raw: (spec_fmul(a.y.raw as int, b.z.raw as int) - spec_fmul(
                a.z.raw as int,
                b.y.raw as int,
            )) as i128,
        },
        y: Fx {
            raw: (spec_fmul(a.z.raw as int, b.x.raw as int) - spec_fmul(
                a.x.raw as int,
                b.z.raw as int,
            )) as i128,
        },
        z: Fx {
            raw: (spec_fmul(a.x.raw as int, b.y.raw as int) - spec_fmul(
                a.y.raw as int,
                b.x.raw as int,
            )) as i128,
        },
    }
}

/// Exact componentwise division by the raw scalar `k`.
pub open spec fn spec_v3_div(a: Vector3, k: int) -> Vector3 {
    Vector3 {
        x: Fx { raw: spec_fdiv(a.x.raw as int, k) as i128 },
        y: Fx { raw: spec_fdiv(a.y.raw as int, k) as i128 },
        z: Fx { raw: spec_fdiv(a.z.raw as int, k) as i128 },
    }
}

/// Exact value of `normalized` before its range guard: each component
/// divided by the truncated length.
pub open spec fn spec_norm(v: Vector3) -> Vector3 {
    Vector3 {
        x: Fx { raw: spec_fdiv(v.x.raw as int, spec_len(v)) as i128 },
        y: Fx { raw: spec_fdiv(v.y.raw as int, spec_len(v)) as i128 },
        z: Fx { raw: spec_fdiv(v.z.raw as int, spec_len(v)) as i128 },
    }
}

/// Exact value of `reflect`.
pub open spec fn spec_reflect(v: Vector3, n: Vector3) -> Vector3 {
    let d = 2 * spec_dot(v, n);
    Vector3 {
        x: Fx { raw: (v.x.raw - spec_fmul(n.x.raw as int, d)) as i128 },
        y: Fx { raw: (v.y.raw - spec_fmul(n.y.raw as int, d)) as i128 },
        z: Fx { raw: (v.z.raw - spec_fmul(n.z.raw as int, d)) as i128 },
    }
}

/// Every product formed by `dot` or `cross` of two `VEC_LIMIT`-bounded
/// vectors stays far inside the scalar range.
pub proof fn lemma_dot_terms_bounded(a: Vector3, b: Vector3)
    requires
        a.bounded(VEC_LIMIT as int),
        b.bounded(VEC_LIMIT as int),
    ensures
        abs(spec_fmul(a.x.raw as int, b.x.raw as int)) as int <= 0x1000_0000_0000_0000_0000_0000,
        abs(spec_fmul(a.y.raw as int, b.y.raw as int)) as int <= 0x1000_0000_0000_0000_0000_0000,
        abs(spec_fmul(a.z.raw as int, b.z.raw as int)) as int <= 0x1000_0000_0000_0000_0000_0000,
        abs(spec_fmul(a.y.raw as int, b.z.raw as int)) as int <= 0x1000_0000_0000_0000_0000_0000,
        abs(spec_fmul(a.z.raw as int, b.y.raw as int)) as int <= 0x1000_0000_0000_0000_0000_0000,
        abs(spec_fmul(a.z.raw as int, b.x.raw as int)) as int <= 0x1000_0000_0000_0000_0000_0000,
        abs(spec_fmul(a.x.raw as int, b.z.raw as int)) as int <= 0x1000_0000_0000_0000_0000_0000,
        abs(spec_fmul(a.x.raw as int, b.y.raw as int)) as int <= 0x1000_0000_0000_0000_0000_0000,
        abs(spec_fmul(a.y.raw as int, b.x.raw as int)) as int <= 0x1000_0000_0000_0000_0000_0000,
{
    let m = VEC_LIMIT as int;
    lemma_fmul_bound(a.x.raw as int, b.x.raw as int, m, m);
    lemma_fmul_bound(a.y.raw as int, b.y.raw as int, m, m);
    lemma_fmul_bound(a.z.raw as int, b.z.raw as int, m, m);
    lemma_fmul_bound(a.y.raw as int, b.z.raw as int, m, m);
    lemma_fmul_bound(a.z.raw as int, b.y.raw as int, m, m);
    lemma_fmul_bound(a.z.raw as int, b.x.raw as int, m, m);
    lemma_fmul_bound(a.x.raw as int, b.z.raw as int, m, m);
    lemma_fmul_bound(a.x.raw as int, b.y.raw as int, m, m);
    lemma_fmul_bound(a.y.raw as int, b.x.raw as int, m, m);
}

/// A dot product of an `m`-bounded and an `n`-bounded vector is
/// bounded by three times the rescaled product of the bounds.
pub proof fn lemma_dot_bound2(a: Vector3, b: Vector3, m: int, n: int)
    requires
        a.bounded(m),
        b.bounded(n),
        m >= 0,
        n >= 0,
    ensures
        abs(spec_dot(a, b)) as int <= 3 * ((m * n) / (SCALE as int)),
        spec_dot(a, b) <= 3 * ((m * n) / (SCALE as int)),
        -(3 * ((m * n) / (SCALE as int))) <= spec_dot(a, b),
{
    lemma_fmul_bound(a.x.raw as int, b.x.raw as int, m, n);
    lemma_fmul_bound(a.y.raw as int, b.y.raw as int, m, n);
    lemma_fmul_bound(a.z.raw as int, b.z.raw as int, m, n);
}

/// A dot product of `m`-bounded vectors is bounded by three times the
/// rescaled product of the bounds.
pub proof fn lemma_dot_bound(a: Vector3, b: Vector3, m: int)
    requires
        a.bounded(m),
        b.bounded(m),
        m >= 0,
    ensures
        abs(spec_dot(a, b)) as int <= 3 * ((m * m) / (SCALE as int)),
        spec_dot(a, b) <= 3 * ((m * m) / (SCALE as int)),
        -(3 * ((m * m) / (SCALE as int))) <= spec_dot(a, b),
{
    lemma_fmul_bound(a.x.raw as int, b.x.raw as int, m, m);
    lemma_fmul_bound(a.y.raw as int, b.y.raw as int, m, m);
    lemma_fmul_bound(a.z.raw as int, b.z.raw as int, m, m);
}

/// The square of any scalar is non-negative after fixed-point rounding.
pub proof fn lemma_fmul_self_nonneg(a: int)
    ensures
        spec_fmul(a, a) >= 0,
{
    assert(a * a >= 0) by (nonlinear_arith);
}

/// A vector's dot product with itself is non-negative.
pub proof fn lemma_dot_self_nonneg(v: Vector3)
    ensures
        spec_dot(v, v) >= 0,
{
    lemma_fmul_self_nonneg(v.x.raw as int);
    lemma_fmul_self_nonneg(v.y.raw as int);
    lemma_fmul_self_nonneg(v.z.raw as int);
}

/// A squared length fits the square-root precondition.
pub proof fn lemma_dot_self_bound(v: Vector3)
    requires
        v.bounded(VEC_LIMIT as int),
    ensures
        spec_dot(v, v) <= 0x1000_0000_0000_0000_0000_0000,
{
    lemma_dot_bound(v, v, VEC_LIMIT as int);
}

} // verus!
