//! Scattering behaviour attached to geometry. A material consumes a
//! precomputed sample and an intersection and either produces an
//! attenuation color with an outgoing ray, or declines — the path is
//! then absorbed and contributes black.

use vstd::prelude::*;

verus! {

use crate::TraceContext;
use crate::color::Color;
use crate::fixed::{Fx, SCALE, lemma_fmul_bound};
use crate::ray::Ray3;
use crate::sampler::{HemiSphereSampler, UnitSphereSampler};
use crate::shapes::Intersection;
use crate::vector::{Vector3, spec_dot, spec_v3_add, spec_v3_scale, spec_v3_cross, spec_norm};
use crate::vector::{UNIT_LIMIT, VEC_LIMIT, REFLECT_LIMIT, spec_reflect, lemma_dot_bound, lemma_bounded_widen};

/// A material that absorbs every path.
#[derive(Clone, Debug)]
pub struct NullMaterial {}

impl NullMaterial {
    pub fn new() -> (m: NullMaterial)
        ensures
            m == (NullMaterial {  }),
    {
        NullMaterial {  }
    }
}

/// A debugging material that scatters along the surface normal and
/// encodes the normal's magnitudes as its attenuation color.
#[derive(Clone, Debug)]
pub struct NormalMaterial {}

impl NormalMaterial {
    pub fn new() -> (m: NormalMaterial)
        ensures
            m == (NormalMaterial {  }),
    {
        NormalMaterial {  }
    }
}

/// A diffuse material: scatters into the hemisphere around the
/// normal, attenuating by its albedo.
#[derive(Clone, Debug)]
pub struct Lambertian {
    pub samples: HemiSphereSampler,
    pub albedo: Color,
}

impl Lambertian {
    /// The sampler is usable and the albedo physical (unit range).
    pub open spec fn wf(self) -> bool {
        &&& self.samples.wf()
        &&& self.samples.points_ok()
        &&& self.albedo.unit()
    }

    pub fn new(samples: HemiSphereSampler, albedo: &Color) -> (m: Lambertian)
        requires
            samples.wf(),
            samples.points_ok(),
            albedo.unit(),
        ensures
            m.wf(),
            m.albedo == *albedo,
            m.samples == samples,
    {
        Lambertian { samples, albedo: *albedo }
    }
}

/// A specular material: reflects about the normal, perturbed by a
/// unit-ball sample scaled by the fuzziness.
#[derive(Clone, Debug)]
pub struct Metal {
    pub samples: UnitSphereSampler,
    pub albedo: Color,
    pub fuzziness: Fx,
}

impl Metal {
    /// The sampler is usable, the albedo physical, the fuzziness in
    /// the unit range (zero is a perfect mirror).
    pub open spec fn wf(self) -> bool {
        &&& self.samples.wf()
        &&& self.samples.points_ok()
        &&& self.albedo.unit()
        &&& 0 <= self.fuzziness.raw <= SCALE
    }

    pub fn new(samples: UnitSphereSampler, albedo: &Color, fuzziness: Fx) -> (m: Metal)
        requires
            samples.wf(),
            samples.points_ok(),
            albedo.unit(),
            0 <= fuzziness.raw <= SCALE,
        ensures
            m.wf(),
            m.albedo == *albedo,
            m.samples == samples,
            m.fuzziness == fuzziness,
    {
        Metal { samples, albedo: *albedo, fuzziness }
    }
}

/// Raw x component of the fixed tilt vector the diffuse basis is
/// built against (about 0.0072).
pub const TILT_X: i128 = 471;

/// Raw z component of the tilt vector (about 0.0034).
pub const TILT_Z: i128 = 222;

/// Raw offset of a scattered ray's origin along the normal (about
/// 0.01), avoiding immediate self-intersection.
pub const SURF_EPS: i128 = 655;

/// Exact mirror of the diffuse scatter: an orthonormal-order basis
/// around the normal, the context-selected hemisphere sample carried
/// into world space, the albedo as attenuation. A degenerate basis
/// or direction absorbs the path.
pub open spec fn spec_lambertian_scatter(m: Lambertian, ctx: TraceContext, isec: Intersection)
    -> Option<(Color, Ray3)> {
    let w = isec.normal;
    let tilt = Vector3 { x: Fx { raw: TILT_X }, y: Fx { raw: 65536 }, z: Fx { raw: TILT_Z } };
    let cr = crate::vector::spec_v3_cross(w, tilt);
    if crate::vector::spec_len(cr) == 0 || !crate::vector::spec_norm(cr).bounded(
        UNIT_LIMIT as int,
    ) {
        None
    } else {
        let v = crate::vector::spec_norm(cr);
        let u = crate::vector::spec_v3_cross(v, w);
        let nsets = m.samples.samples@.len() as int;
        let set = m.samples.samples@[ctx.set_index as int % nsets]@;
        let sample = set[ctx.sample_index as int % set.len() as int];
        let target = spec_v3_add(
            spec_v3_add(
                spec_v3_scale(u, sample.x.raw as int),
                spec_v3_scale(v, sample.y.raw as int),
            ),
            spec_v3_scale(w, sample.z.raw as int),
        );
        if crate::vector::spec_len(target) == 0 || !crate::vector::spec_norm(target).bounded(
            UNIT_LIMIT as int,
        ) {
            None
        } else {
            let n2 = crate::vector::spec_norm(target);
            let origin = spec_v3_add(isec.point, spec_v3_scale(n2, SURF_EPS as int));
            Some((m.albedo, Ray3 { origin, direction: n2 }))
        }
    }
}

/// Exact mirror of the debug scatter: onward along the normal, the
/// normal's magnitudes (clamped to the unit range) as the color.
pub open spec fn spec_normal_scatter(isec: Intersection) -> Option<(Color, Ray3)> {
    let n = isec.normal;
    let att = Color {
        r: Fx { raw: spec_unit_abs(n.x.raw as int) as i128 },
        g: Fx { raw: spec_unit_abs(n.y.raw as int) as i128 },
        b: Fx { raw: spec_unit_abs(n.z.raw as int) as i128 },
        a: Fx { raw: SCALE },
    };
    let origin = spec_v3_add(isec.point, spec_v3_scale(n, SURF_EPS as int));
    Some((att, Ray3 { origin, direction: n }))
}

/// A magnitude clamped into the unit range.
pub open spec fn spec_unit_abs(x: int) -> int {
    let a = if x < 0 {
        -x
    } else {
        x
    };
    if a > SCALE {
        SCALE as int
    } else {
        a
    }
}

/// Exact mirror of the specular scatter: the reflection about the
/// normal, perturbed by the context-selected ball sample scaled by
/// the fuzziness, renormalized. The scatter succeeds only when the
/// outgoing direction leaves the surface.
pub open spec fn spec_metal_scatter(m: Metal, ctx: TraceContext, ray: Ray3, isec: Intersection)
    -> Option<(Color, Ray3)> {
    let nsets = m.samples.samples@.len() as int;
    let set = m.samples.samples@[ctx.set_index as int % nsets]@;
    let sample = set[ctx.sample_index as int % set.len() as int];
    let pert = spec_v3_add(
        spec_reflect(ray.direction, isec.normal),
        spec_v3_scale(sample, m.fuzziness.raw as int),
    );
    if crate::vector::spec_len(pert) == 0 || !crate::vector::spec_norm(pert).bounded(
        UNIT_LIMIT as int,
    ) {
        None
    } else {
        let dir = crate::vector::spec_norm(pert);
        if spec_dot(dir, isec.normal) > 0 {
            Some((m.albedo, Ray3 { origin: isec.point, direction: dir }))
        } else {
            None
        }
    }
}

impl Lambertian {
    /// Diffuse scatter; exact per the mirror, and any produced ray is
    /// trace-ready with a unit attenuation.
    pub fn scatter(&self, trace_context: &TraceContext, isec: &Intersection) -> (r: Option<(
        Color,
        Ray3,
    )>)
        requires
            self.wf(),
            isec.ok(),
        ensures
            r == spec_lambertian_scatter(*self, *trace_context, *isec),
            r matches Some((att, sray)) ==> att.unit() && crate::shapes::spec_ray_ok(sray),
    {
        let w = isec.normal;
        let tilt = Vector3 {
            x: Fx { raw: TILT_X },
            y: Fx { raw: 65536 },
            z: Fx { raw: TILT_Z },
        };
        proof {
            lemma_bounded_widen(w, UNIT_LIMIT as int, VEC_LIMIT as int);
            crate::vector::lemma_dot_terms_bounded(w, tilt);
            lemma_cross_comp_bound(w, tilt, UNIT_LIMIT as int, SCALE as int);
        }
        let cr = w.cross(&tilt);
        let v: Vector3;
        match cr.normalized() {
            Some(n) => {
                v = n;
            },
            None => {
                return None;
            },
        }
        proof {
            lemma_bounded_widen(v, UNIT_LIMIT as int, VEC_LIMIT as int);
            lemma_cross_comp_bound(v, w, UNIT_LIMIT as int, UNIT_LIMIT as int);
        }
        let u = v.cross(&w);
        let sample = self.samples.sample(trace_context.set_index, trace_context.sample_index);
        proof {
            lemma_basis_scale_bound(u, sample.x.raw as int);
            lemma_basis_scale_bound(v, sample.y.raw as int);
            lemma_basis_scale_bound(w, sample.z.raw as int);
        }
        let target = u.scaled(sample.x).plus(v.scaled(sample.y)).plus(w.scaled(sample.z));
        proof {
            lemma_bounded_widen(target, 0x300000, VEC_LIMIT as int);
        }
        let normal2: Vector3;
        match target.normalized() {
            Some(n) => {
                normal2 = n;
            },
            None => {
                return None;
            },
        }
        proof {
            lemma_basis_scale_bound(normal2, SURF_EPS as int);
        }
        let origin = isec.point.plus(normal2.scaled(Fx { raw: SURF_EPS }));
        Some((self.albedo, Ray3 { origin, direction: normal2 }))
    }
}

/// A cross product of an `m`- and an `n`-bounded vector is
/// componentwise within twice the rescaled bound product.
proof fn lemma_cross_comp_bound(a: Vector3, b: Vector3, m: int, n: int)
    requires
        a.bounded(m),
        b.bounded(n),
        m >= 0,
        n >= 0,
    ensures
        spec_v3_cross(a, b).bounded(2 * ((m * n) / 65536)),
{
    lemma_fmul_bound(a.y.raw as int, b.z.raw as int, m, n);
    lemma_fmul_bound(a.z.raw as int, b.y.raw as int, m, n);
    lemma_fmul_bound(a.z.raw as int, b.x.raw as int, m, n);
    lemma_fmul_bound(a.x.raw as int, b.z.raw as int, m, n);
    lemma_fmul_bound(a.x.raw as int, b.y.raw as int, m, n);
    lemma_fmul_bound(a.y.raw as int, b.x.raw as int, m, n);
}

/// A basis-order vector scaled by a unit-order raw factor stays
/// within a megastep.
proof fn lemma_basis_scale_bound(a: Vector3, k: int)
    requires
        a.bounded(0x100000),
        -65536 <= k <= 65536,
    ensures
        spec_v3_scale(a, k).bounded(0x100000),
{
    lemma_fmul_bound(a.x.raw as int, k, 0x100000, 65536);
    lemma_fmul_bound(a.y.raw as int, k, 0x100000, 65536);
    lemma_fmul_bound(a.z.raw as int, k, 0x100000, 65536);
}

impl NormalMaterial {
    /// Debug scatter; exact per the mirror.
    pub fn scatter(&self, isec: &Intersection) -> (r: Option<(Color, Ray3)>)
        requires
            isec.ok(),
        ensures
            r == spec_normal_scatter(*isec),
            r matches Some((att, sray)) ==> att.unit() && crate::shapes::spec_ray_ok(sray),
    {
        let n = isec.normal;
        let att = Color {
            r: unit_abs(n.x),
            g: unit_abs(n.y),
            b: unit_abs(n.z),
            a: Fx { raw: SCALE },
        };
        proof {
            lemma_basis_scale_bound(n, SURF_EPS as int);
        }
        let origin = isec.point.plus(n.scaled(Fx { raw: SURF_EPS }));
        Some((att, Ray3 { origin, direction: n }))
    }
}

/// The magnitude of a unit-order scalar, clamped to the unit range.
fn unit_abs(x: Fx) -> (r: Fx)
    requires
        -0x100000 <= x.raw <= 0x100000,
    ensures
        r.raw == spec_unit_abs(x.raw as int),
        0 <= r.raw <= SCALE,
{
    let a: i128 = if x.raw < 0 {
        -x.raw
    } else {
        x.raw
    };
    if a > SCALE {
        Fx { raw: SCALE }
    } else {
        Fx { raw: a }
    }
}

impl Metal {
    /// Specular scatter; exact per the mirror, and any produced ray
    /// is trace-ready with a unit attenuation.
    pub fn scatter(&self, trace_context: &TraceContext, ray: &Ray3, isec: &Intersection) -> (r:
        Option<(Color, Ray3)>)
        requires
            self.wf(),
            isec.ok(),
            crate::shapes::spec_ray_ok(*ray),
        ensures
            r == spec_metal_scatter(*self, *trace_context, *ray, *isec),
            r matches Some((att, sray)) ==> att.unit() && crate::shapes::spec_ray_ok(sray),
    {
        let sample = self.samples.sample(trace_context.set_index, trace_context.sample_index);
        proof {
            lemma_bounded_widen(ray.direction, UNIT_LIMIT as int, REFLECT_LIMIT as int);
            lemma_bounded_widen(isec.normal, UNIT_LIMIT as int, REFLECT_LIMIT as int);
            lemma_reflect_bound(ray.direction, isec.normal);
            lemma_fmul_bound(sample.x.raw as int, self.fuzziness.raw as int, SCALE as int, SCALE as int);
            lemma_fmul_bound(sample.y.raw as int, self.fuzziness.raw as int, SCALE as int, SCALE as int);
            lemma_fmul_bound(sample.z.raw as int, self.fuzziness.raw as int, SCALE as int, SCALE as int);
        }
        let pert = ray.direction.reflect(&isec.normal).plus(sample.scaled(self.fuzziness));
        proof {
            lemma_bounded_widen(pert, 0x900000, VEC_LIMIT as int);
        }
        let dir: Vector3;
        match pert.normalized() {
            Some(n) => {
                dir = n;
            },
            None => {
                return None;
            },
        }
        proof {
            lemma_bounded_widen(dir, UNIT_LIMIT as int, VEC_LIMIT as int);
            lemma_bounded_widen(isec.normal, UNIT_LIMIT as int, VEC_LIMIT as int);
        }
        let d = dir.dot(&isec.normal);
        if d.raw > 0 {
            Some((self.albedo, Ray3 { origin: isec.point, direction: dir }))
        } else {
            None
        }
    }
}

/// The reflection of unit-order vectors is componentwise small.
proof fn lemma_reflect_bound(v: Vector3, n: Vector3)
    requires
        v.bounded(UNIT_LIMIT as int),
        n.bounded(UNIT_LIMIT as int),
    ensures
        spec_reflect(v, n).bounded(0x800000),
{
    lemma_dot_bound(v, n, UNIT_LIMIT as int);
    let d = 2 * spec_dot(v, n);
    lemma_fmul_bound(n.x.raw as int, d, UNIT_LIMIT as int, 0x180000);
    lemma_fmul_bound(n.y.raw as int, d, UNIT_LIMIT as int, 0x180000);
    lemma_fmul_bound(n.z.raw as int, d, UNIT_LIMIT as int, 0x180000);
}

/// The closed set of scattering behaviours a scene object can carry.
#[derive(Clone, Debug)]
pub enum Material {
    Null(NullMaterial),
    Normal(NormalMaterial),
    Lambertian(Lambertian),
    Metal(Metal),
}

/// What any material's scatter produces: `None` absorbs the path.
pub open spec fn spec_scatter(m: Material, ctx: TraceContext, ray: Ray3, isec: Intersection)
    -> Option<(Color, Ray3)> {
    match m {
        Material::Null(_) => None,
        Material::Normal(_) => spec_normal_scatter(isec),
        Material::Lambertian(l) => spec_lambertian_scatter(l, ctx, isec),
        Material::Metal(me) => spec_metal_scatter(me, ctx, ray, isec),
    }
}

impl Material {
    /// Each variant's own well-formedness.
    pub open spec fn wf(self) -> bool {
        match self {
            Material::Null(_) => true,
            Material::Normal(_) => true,
            Material::Lambertian(m) => m.wf(),
            Material::Metal(m) => m.wf(),
        }
    }

    /// Consumes a sample selected by the context and the intersection
    /// and produces an attenuation and an outgoing ray, or declines;
    /// exact per the mirror, and any produced ray is trace-ready with
    /// a unit attenuation.
    pub fn scatter(&self, trace_context: &TraceContext, ray: &Ray3, isec: &Intersection) -> (r:
        Option<(Color, Ray3)>)
        requires
            self.wf(),
            isec.ok(),
            crate::shapes::spec_ray_ok(*ray),
        ensures
            r == spec_scatter(*self, *trace_context, *ray, *isec),
            r matches Some((att, sray)) ==> att.unit() && crate::shapes::spec_ray_ok(sray),
    {
        match self {
            Material::Null(_) => None,
            Material::Normal(m) => m.scatter(isec),
            Material::Lambertian(m) => m.scatter(trace_context, isec),
            Material::Metal(m) => m.scatter(trace_context, ray, isec),
        }
    }
}


impl Material {
    /// Checks `wf` at run time, for callers that assemble materials
    /// outside the library's constructors.
    pub fn check_wf(&self) -> (r: bool)
        ensures
            r == self.wf(),
    {
        match self {
            Material::Null(_) => true,
            Material::Normal(_) => true,
            Material::Lambertian(m) => m.samples.check_wf() && color_unit(&m.albedo),
            Material::Metal(m) => m.samples.check_wf() && color_unit(&m.albedo) && 0
                <= m.fuzziness.raw && m.fuzziness.raw <= SCALE,
        }
    }
}

/// Checks that every channel lies in the unit interval.
fn color_unit(c: &Color) -> (r: bool)
    ensures
        r == c.unit(),
{
    0 <= c.r.raw && c.r.raw <= SCALE && 0 <= c.g.raw && c.g.raw <= SCALE && 0 <= c.b.raw
        && c.b.raw <= SCALE && 0 <= c.a.raw && c.a.raw <= SCALE
}

} // verus!
