//! The renderer: per-pixel sampling, nearest-hit resolution and the
//! recursive light transport, all exact against mirror
//! specifications.
//!
//! A traced path is `Active(depth)`; a hit whose material scatters
//! advances it while `depth` is below the configured maximum, a hit
//! whose material declines terminates it as black, a miss terminates
//! it with the ambient color, and exhausting the depth budget while
//! still scattering terminates it as black (the deliberate bias of a
//! finite-depth tracer).
//!
//! Every pixel depends only on its own coordinates and the offsets
//! drawn for it — never on the order in which rows are computed — so
//! distributing rows over workers cannot change the image.

use vstd::prelude::*;

verus! {

use vstd::math::abs;
use crate::{TraceContext, RenderBuffer, MAX_DIM};
use crate::camera::{Camera, spec_generate_ray};
use crate::color::{Color, spec_color_mul};
use crate::fixed::{Fx, SCALE, spec_fmul, sdiv, lemma_fmul_bound};
use crate::random::{random_below, host_cpu_count};
use crate::ray::Ray3;
use crate::sampler::UnitSquareSampler;
use crate::shapes::{Hitable, Intersection, spec_hit, spec_ray_ok};
use crate::vector::Vector2;

/// Largest pixel size (world units per pixel) a renderer accepts.
pub const PIXEL_SIZE_LIMIT: i128 = 0x80000;

/// Exclusive cap on the random set and sample offsets drawn per row
/// and pixel; far below any index overflow.
pub const OFFSET_CAP: usize = 0x4000_0000;

/// Every object of a scene is scene-ready.
pub open spec fn spec_scene_wf(objs: Seq<Hitable>) -> bool {
    forall|i: int| 0 <= i < objs.len() ==> (#[trigger] objs[i]).wf()
}

/// The nearest forward hit among the first `n` objects, with its
/// object index; an equally near later object wins, as an iterator
/// minimum does.
pub open spec fn spec_nearest(objs: Seq<Hitable>, ray: Ray3, n: int) -> Option<(
    int,
    Intersection,
)>
    decreases n,
{
    if n <= 0 {
        None
    } else {
        let prev = spec_nearest(objs, ray, n - 1);
        match spec_hit(objs[n - 1], ray) {
            None => prev,
            Some(i) => match prev {
                None => Some((n - 1, i)),
                Some((pj, pi)) => if i.t.raw <= pi.t.raw {
                    Some((n - 1, i))
                } else {
                    Some((pj, pi))
                },
            },
        }
    }
}

/// The reported hit really is nearest: no object of the scene hits
/// closer than it, and it is the hit of the object it names.
#[verifier::rlimit(50)]
pub proof fn lemma_nearest_min(objs: Seq<Hitable>, ray: Ray3, n: int)
    requires
        0 <= n <= objs.len(),
    ensures
        spec_nearest(objs, ray, n) matches Some((idx, isec)) ==> {
            &&& 0 <= idx < n
            &&& spec_hit(objs[idx], ray) == Some::<Intersection>(isec)
            &&& forall|j: int|
                0 <= j < n ==> ((#[trigger] spec_hit(objs[j], ray)) matches Some(other)
                    ==> isec.t.raw <= other.t.raw)
        },
        spec_nearest(objs, ray, n) is None ==> forall|j: int|
            0 <= j < n ==> (#[trigger] spec_hit(objs[j], ray)) is None,
    decreases n,
{
    if n > 0 {
        lemma_nearest_min(objs, ray, n - 1);
        let prev = spec_nearest(objs, ray, n - 1);
        let cur = spec_hit(objs[n - 1], ray);
        match spec_nearest(objs, ray, n) {
            None => {
            },
            Some((idx, isec)) => {
                assert forall|j: int|
                    0 <= j < n implies ((#[trigger] spec_hit(objs[j], ray)) matches Some(other)
                    ==> isec.t.raw <= other.t.raw) by {
                    match spec_hit(objs[j], ray) {
                        None => {
                        },
                        Some(other) => {
                            if j == n - 1 {
                                assert(cur == Some::<Intersection>(other));
                                match prev {
                                    None => {
                                    },
                                    Some((pj, pi)) => {
                                    },
                                }
                            } else {
                                match prev {
                                    None => {
                                    },
                                    Some((pj, pi)) => {
                                        assert(pi.t.raw <= other.t.raw);
                                    },
                                }
                            }
                        },
                    }
                }
            },
        }
    }
}

/// Opaque black: what an absorbed path contributes.
pub open spec fn spec_black() -> Color {
    Color { r: Fx { raw: 0 }, g: Fx { raw: 0 }, b: Fx { raw: 0 }, a: Fx { raw: SCALE } }
}

/// The radiance carried back along a ray: ambient on a miss, black
/// on absorption or an exhausted depth budget, otherwise the
/// recursive radiance attenuated by the scatter.
pub open spec fn spec_trace(
    objs: Seq<Hitable>,
    ambient: Color,
    ctx: TraceContext,
    ray: Ray3,
    depth: int,
    maxd: int,
) -> Color
    decreases maxd - depth,
{
    match spec_nearest(objs, ray, objs.len() as int) {
        None => ambient,
        Some((idx, isec)) => match crate::material::spec_scatter(
            objs[idx].spec_material(),
            ctx,
            ray,
            isec,
        ) {
            None => spec_black(),
            Some((att, sray)) => if depth < maxd {
                spec_color_mul(spec_trace(objs, ambient, ctx, sray, depth + 1, maxd), att)
            } else {
                spec_black()
            },
        },
    }
}

/// The nearest forward hit of the scene, with the index of the hit
/// object; exact per `spec_nearest`.
pub fn nearest_hit(objects: &Vec<Hitable>, ray: &Ray3) -> (r: Option<(Intersection, usize)>)
    requires
        spec_scene_wf(objects@),
        spec_ray_ok(*ray),
    ensures
        ({
            let h = spec_nearest(objects@, *ray, objects@.len() as int);
            &&& (r is Some <==> h is Some)
            &&& (r matches Some((isec, idx)) ==> h matches Some((hidx, hisec)) && idx == hidx
                && isec == hisec && isec.ok() && idx < objects@.len())
        }),
{
    let mut best: Option<(Intersection, usize)> = None;
    let mut k: usize = 0;
    while k < objects.len()
        invariant
            spec_scene_wf(objects@),
            spec_ray_ok(*ray),
            k <= objects@.len(),
            ({
                let h = spec_nearest(objects@, *ray, k as int);
                &&& (best is Some <==> h is Some)
                &&& (best matches Some((isec, idx)) ==> h matches Some((hidx, hisec)) && idx
                    == hidx && isec == hisec && isec.ok() && idx < k)
            }),
        decreases objects@.len() - k,
    {
        let hit = objects[k].intersect(ray);
        match hit {
            Some(i) => {
                match &best {
                    Some((bi, _)) => {
                        if i.t.raw <= bi.t.raw {
                            best = Some((i, k));
                        }
                    },
                    None => {
                        best = Some((i, k));
                    },
                }
            },
            None => {},
        }
        k = k + 1;
    }
    best
}

/// The radiance carried back along a ray; exact per `spec_trace`,
/// and always a unit-range color when the ambient color is one.
#[verifier::rlimit(100)]
pub fn trace_ray(
    objects: &Vec<Hitable>,
    ambient: Color,
    trace_context: &TraceContext,
    ray: &Ray3,
    depth: u32,
    max_trace_depth: u32,
) -> (c: Color)
    requires
        spec_scene_wf(objects@),
        spec_ray_ok(*ray),
        ambient.unit(),
        depth <= max_trace_depth,
    ensures
        c == spec_trace(
            objects@,
            ambient,
            *trace_context,
            *ray,
            depth as int,
            max_trace_depth as int,
        ),
        c.unit(),
    decreases max_trace_depth - depth,
{
    let hit = nearest_hit(objects, ray);
    match hit {
        None => ambient,
        Some((isec, idx)) => {
            proof {
                lemma_nearest_min(objects@, *ray, objects@.len() as int);
            }
            let scattered = objects[idx].material().scatter(trace_context, ray, &isec);
            match scattered {
                None => Color::black(),
                Some((attenuation, sray)) => {
                    if depth < max_trace_depth {
                        let rec = trace_ray(
                            objects,
                            ambient,
                            trace_context,
                            &sray,
                            depth + 1,
                            max_trace_depth,
                        );
                        rec.times(attenuation)
                    } else {
                        Color::black()
                    }
                },
            }
        },
    }
}

/// A miss keeps the ambient color: if no object of the scene hits
/// the ray, its traced radiance is exactly the ambient color, at any
/// depth.
pub proof fn lemma_trace_miss(
    objs: Seq<Hitable>,
    ambient: Color,
    ctx: TraceContext,
    ray: Ray3,
    depth: int,
    maxd: int,
)
    requires
        spec_nearest(objs, ray, objs.len() as int) is None,
    ensures
        spec_trace(objs, ambient, ctx, ray, depth, maxd) == ambient,
{
}

/// Depth termination: a ray that hits a scattering material with its
/// depth budget already exhausted contributes exactly black — never
/// the unattenuated attenuation.
pub proof fn lemma_trace_depth_exhausted(
    objs: Seq<Hitable>,
    ambient: Color,
    ctx: TraceContext,
    ray: Ray3,
    maxd: int,
)
    requires
        spec_nearest(objs, ray, objs.len() as int) matches Some((idx, isec))
            && crate::material::spec_scatter(objs[idx].spec_material(), ctx, ray, isec)
            is Some,
    ensures
        spec_trace(objs, ambient, ctx, ray, maxd, maxd) == spec_black(),
{
}

/// The options recognized by a render invocation.
pub struct RendererConfig {
    pub image_width: u32,
    pub image_height: u32,
    pub pixel_size: Fx,
    pub pixel_sampler: UnitSquareSampler,
    pub max_trace_depth: u32,
    pub ambient_color: Color,
    pub num_render_threads: Option<u32>,
}

impl RendererConfig {
    /// A configuration the renderer accepts: positive bounded
    /// dimensions, a positive bounded pixel size, a usable sampler
    /// with a bounded set size, a unit ambient color, and a positive
    /// worker count when one is given.
    pub open spec fn valid(self) -> bool {
        &&& 0 < self.image_width <= MAX_DIM
        &&& 0 < self.image_height <= MAX_DIM
        &&& 0 < self.pixel_size.raw <= PIXEL_SIZE_LIMIT
        &&& self.pixel_sampler.wf()
        &&& self.pixel_sampler.points_ok()
        &&& self.pixel_sampler.samples@[0]@.len() <= 0x100_0000
        &&& self.ambient_color.unit()
        &&& (self.num_render_threads matches Some(n) ==> n >= 1)
    }
}

/// The renderer: the configuration plus the image buffer the traced
/// rows accumulate into.
pub struct Renderer {
    pub image_width: u32,
    pub image_height: u32,
    pub pixel_size: Fx,
    pub pixel_sampler: UnitSquareSampler,
    pub max_trace_depth: u32,
    pub ambient_color: Color,
    pub num_render_threads: u32,
    pub image_buffer: RenderBuffer,
}

impl Renderer {
    /// Render-ready: a valid configuration and a buffer of exactly
    /// the configured dimensions.
    pub open spec fn wf(self) -> bool {
        &&& 0 < self.image_width <= MAX_DIM
        &&& 0 < self.image_height <= MAX_DIM
        &&& 0 < self.pixel_size.raw <= PIXEL_SIZE_LIMIT
        &&& self.pixel_sampler.wf()
        &&& self.pixel_sampler.points_ok()
        &&& self.pixel_sampler.samples@[0]@.len() <= 0x100_0000
        &&& self.ambient_color.unit()
        &&& self.num_render_threads >= 1
        &&& self.image_buffer.wf()
        &&& self.image_buffer.width == self.image_width
        &&& self.image_buffer.height == self.image_height
    }

    /// The configuration fields of two renderers agree.
    pub open spec fn same_config(self, other: Renderer) -> bool {
        &&& self.image_width == other.image_width
        &&& self.image_height == other.image_height
        &&& self.pixel_size == other.pixel_size
        &&& self.pixel_sampler == other.pixel_sampler
        &&& self.max_trace_depth == other.max_trace_depth
        &&& self.ambient_color == other.ambient_color
        &&& self.num_render_threads == other.num_render_threads
    }

    /// A renderer for the given configuration, with a fresh buffer;
    /// a missing worker count defaults to the host's CPU count.
    pub fn new(config: RendererConfig) -> (r: Renderer)
        requires
            config.valid(),
        ensures
            r.wf(),
            r.image_width == config.image_width,
            r.image_height == config.image_height,
            r.pixel_size == config.pixel_size,
            r.pixel_sampler == config.pixel_sampler,
            r.max_trace_depth == config.max_trace_depth,
            r.ambient_color == config.ambient_color,
            config.num_render_threads matches Some(n) ==> r.num_render_threads == n,
    {
        let num_render_threads: u32 = match config.num_render_threads {
            Some(n) => n,
            None => {
                let c = host_cpu_count();
                if c > 0xffff {
                    0xffff
                } else {
                    c as u32
                }
            },
        };
        Renderer {
            image_width: config.image_width,
            image_height: config.image_height,
            pixel_size: config.pixel_size,
            pixel_sampler: config.pixel_sampler,
            max_trace_depth: config.max_trace_depth,
            ambient_color: config.ambient_color,
            num_render_threads,
            image_buffer: RenderBuffer::new(config.image_width, config.image_height),
        }
    }

    /// The film-plane corner of pixel `(x, y)`:
    /// `pixel_size * ((x, y) - dim/2 - (1/2, 1/2))`, exact.
    pub open spec fn spec_pixel_corner(self, x: int, y: int) -> Vector2 {
        let cx = x * SCALE - (self.image_width * SCALE) / 2 - 32768;
        let cy = y * SCALE - (self.image_height * SCALE) / 2 - 32768;
        Vector2 {
            x: Fx { raw: spec_fmul(cx, self.pixel_size.raw as int) as i128 },
            y: Fx { raw: spec_fmul(cy, self.pixel_size.raw as int) as i128 },
        }
    }

    /// Which shuffled set pixel `x` of a row with set offset `so`
    /// draws from.
    pub open spec fn spec_pixel_set_index(self, so: int, x: int) -> int {
        (so + x + 1) % (self.pixel_sampler.samples@.len() as int)
    }

    /// The radiance of sample `k` of pixel `(x, y)`.
    pub open spec fn spec_sample_trace(
        self,
        camera: Camera,
        objs: Seq<Hitable>,
        x: int,
        y: int,
        so: int,
        soff: int,
        k: int,
    ) -> Color {
        let psi = self.spec_pixel_set_index(so, x);
        let sample = self.pixel_sampler.samples@[psi]@[k];
        let corner = self.spec_pixel_corner(x, y);
        let px = corner.x.raw + spec_fmul(sample.x.raw as int, self.pixel_size.raw as int);
        let py = corner.y.raw + spec_fmul(sample.y.raw as int, self.pixel_size.raw as int);
        let ray = spec_generate_ray(camera, px as int, -py as int);
        let ctx = TraceContext {
            set_index: (so + x + 1) as usize,
            sample_index: (soff + k) as usize,
        };
        spec_trace(objs, self.ambient_color, ctx, ray, 0, self.max_trace_depth as int)
    }

    /// The sum of the first `k` sample radiances of pixel `(x, y)`,
    /// accumulated onto opaque black.
    pub open spec fn spec_sample_sum(
        self,
        camera: Camera,
        objs: Seq<Hitable>,
        x: int,
        y: int,
        so: int,
        soff: int,
        k: int,
    ) -> Color
        decreases k,
    {
        if k <= 0 {
            spec_black()
        } else {
            crate::color::spec_color_add(
                self.spec_sample_sum(camera, objs, x, y, so, soff, k - 1),
                self.spec_sample_trace(camera, objs, x, y, so, soff, k - 1),
            )
        }
    }

    /// The finished pixel `(x, y)`: the sample sum averaged over the
    /// set size.
    pub open spec fn spec_pixel(
        self,
        camera: Camera,
        objs: Seq<Hitable>,
        x: int,
        y: int,
        so: int,
        soff: int,
    ) -> Color {
        let n = self.pixel_sampler.samples@[self.spec_pixel_set_index(so, x)]@.len() as int;
        let s = self.spec_sample_sum(camera, objs, x, y, so, soff, n);
        Color {
            r: Fx { raw: sdiv(s.r.raw as int, n) as i128 },
            g: Fx { raw: sdiv(s.g.raw as int, n) as i128 },
            b: Fx { raw: sdiv(s.b.raw as int, n) as i128 },
            a: Fx { raw: sdiv(s.a.raw as int, n) as i128 },
        }
    }
}

impl Renderer {
    /// Encodes the accumulated image as a bitmap file's bytes; the
    /// caller owns writing them to disk.
    pub fn write_bmp(&self) -> (out: crate::io::OutputStream)
        requires
            self.wf(),
        ensures
            out.bytes@ == crate::spec_bmp(self.image_buffer),
    {
        self.image_buffer.write_bmp()
    }

    /// One scanline: every pixel of row `y`, traced with the given
    /// set offset and per-pixel sample offsets. Exact per
    /// `spec_pixel`: the row depends only on the row index and the
    /// offsets, never on when or where it is computed.
    pub fn trace_line(
        &self,
        camera: &Camera,
        objects: &Vec<Hitable>,
        y: u32,
        set_offset: usize,
        sample_offsets: &Vec<usize>,
    ) -> (row: Vec<Color>)
        requires
            self.wf(),
            camera.wf(),
            spec_scene_wf(objects@),
            y < self.image_height,
            sample_offsets@.len() == self.image_width,
            set_offset < OFFSET_CAP,
            forall|i: int|
                0 <= i < sample_offsets@.len() ==> (#[trigger] sample_offsets@[i]) < OFFSET_CAP,
        ensures
            row@.len() == self.image_width,
            forall|x: int|
                0 <= x < self.image_width ==> (#[trigger] row@[x]) == self.spec_pixel(
                    *camera,
                    objects@,
                    x,
                    y as int,
                    set_offset as int,
                    sample_offsets@[x] as int,
                ),
            forall|x: int| 0 <= x < self.image_width ==> (#[trigger] row@[x]).bounded(
                0x1_0000_0000_0000,
            ),
    {
        let num_pixel_sets = self.pixel_sampler.samples.len();
        let w_half: i128 = (self.image_width as i128) * 65536 / 2;
        let h_half: i128 = (self.image_height as i128) * 65536 / 2;
        proof {
            vstd::arithmetic::div_mod::lemma_div_multiples_vanish(
                self.image_width as int * 32768,
                2,
            );
            vstd::arithmetic::div_mod::lemma_div_multiples_vanish(
                self.image_height as int * 32768,
                2,
            );
            assert(w_half == self.image_width * 32768);
            assert(h_half == self.image_height * 32768);
        }
        let cy_raw: i128 = (y as i128) * 65536 - h_half - 32768;
        let mut out: Vec<Color> = Vec::new();
        let mut x: u32 = 0;
        while x < self.image_width
            invariant
                self.wf(),
                camera.wf(),
                spec_scene_wf(objects@),
                y < self.image_height,
                sample_offsets@.len() == self.image_width,
                set_offset < OFFSET_CAP,
                forall|i: int|
                    0 <= i < sample_offsets@.len() ==> (#[trigger] sample_offsets@[i])
                        < OFFSET_CAP,
                num_pixel_sets == self.pixel_sampler.samples@.len(),
                w_half == (self.image_width * SCALE) / 2,
                h_half == (self.image_height * SCALE) / 2,
                w_half == self.image_width * 32768,
                h_half == self.image_height * 32768,
                cy_raw == y * SCALE - (self.image_height * SCALE) / 2 - 32768,
                -0x2002_0000 <= cy_raw <= 0x2002_0000,
                x <= self.image_width,
                out@.len() == x,
                forall|xx: int|
                    0 <= xx < x ==> (#[trigger] out@[xx]) == self.spec_pixel(
                        *camera,
                        objects@,
                        xx,
                        y as int,
                        set_offset as int,
                        sample_offsets@[xx] as int,
                    ),
                forall|xx: int| 0 <= xx < x ==> (#[trigger] out@[xx]).bounded(
                    0x1_0000_0000_0000,
                ),
            decreases self.image_width - x,
        {
            let cx_raw: i128 = (x as i128) * 65536 - w_half - 32768;
            proof {
                assert(-0x2002_0000 <= cx_raw <= 0x2002_0000);
                lemma_fmul_bound(cx_raw as int, self.pixel_size.raw as int, 0x2002_0000, PIXEL_SIZE_LIMIT as int);
                lemma_fmul_bound(cy_raw as int, self.pixel_size.raw as int, 0x2002_0000, PIXEL_SIZE_LIMIT as int);
            }
            let corner_x = Fx { raw: cx_raw }.fmul(self.pixel_size);
            let corner_y = Fx { raw: cy_raw }.fmul(self.pixel_size);
            let psi = (set_offset + x as usize + 1) % num_pixel_sets;
            let set = &self.pixel_sampler.samples[psi];
            let soff = sample_offsets[x as usize];
            let so_x: usize = set_offset + x as usize + 1;
            let mut color = Color::black();
            let mut k: usize = 0;
            while k < set.len()
                invariant
                    self.wf(),
                    camera.wf(),
                    spec_scene_wf(objects@),
                    y < self.image_height,
                    x < self.image_width,
                    set_offset < OFFSET_CAP,
                    soff < OFFSET_CAP,
                    num_pixel_sets == self.pixel_sampler.samples@.len(),
                    psi == (set_offset + x + 1) as int % (
                    self.pixel_sampler.samples@.len() as int),
                    so_x == set_offset + x + 1,
                    set == &self.pixel_sampler.samples[psi as int],
                    set@.len() <= 0x100_0000,
                    corner_x.raw == self.spec_pixel_corner(x as int, y as int).x.raw,
                    corner_y.raw == self.spec_pixel_corner(x as int, y as int).y.raw,
                    -0x1_0018_0000 <= corner_x.raw <= 0x1_0018_0000,
                    -0x1_0018_0000 <= corner_y.raw <= 0x1_0018_0000,
                    k <= set@.len(),
                    color == self.spec_sample_sum(
                        *camera,
                        objects@,
                        x as int,
                        y as int,
                        set_offset as int,
                        soff as int,
                        k as int,
                    ),
                    color.bounded((k + 1) * SCALE),
                decreases set@.len() - k,
            {
                let sample = set[k];
                proof {
                    assert(crate::sampler::in_unit_square(sample));
                    lemma_fmul_bound(sample.x.raw as int, self.pixel_size.raw as int, SCALE as int, PIXEL_SIZE_LIMIT as int);
                    lemma_fmul_bound(sample.y.raw as int, self.pixel_size.raw as int, SCALE as int, PIXEL_SIZE_LIMIT as int);
                }
                let px = corner_x.fadd(sample.x.fmul(self.pixel_size));
                let py = corner_y.fadd(sample.y.fmul(self.pixel_size));
                let ray = camera.generate_ray(px, py.fneg());
                let ctx = TraceContext { set_index: so_x, sample_index: soff + k };
                let traced = trace_ray(
                    objects,
                    self.ambient_color,
                    &ctx,
                    &ray,
                    0,
                    self.max_trace_depth,
                );
                color = color.plus(traced);
                k = k + 1;
            }
            let pixel = color.div_by_count(set.len());
            proof {
                lemma_sdiv_shrinks(color.r.raw as int, set@.len() as int);
                lemma_sdiv_shrinks(color.g.raw as int, set@.len() as int);
                lemma_sdiv_shrinks(color.b.raw as int, set@.len() as int);
                lemma_sdiv_shrinks(color.a.raw as int, set@.len() as int);
                assert(pixel == self.spec_pixel(
                    *camera,
                    objects@,
                    x as int,
                    y as int,
                    set_offset as int,
                    soff as int,
                ));
            }
            out.push(pixel);
            x = x + 1;
        }
        out
    }

    /// Renders the whole image into the buffer, row by row, drawing
    /// fresh random offsets for every row and pixel. There is one
    /// offset table under which every pixel of the finished buffer is
    /// exactly `spec_pixel` of its own coordinates and offsets —
    /// nothing else — so the same draws give the same image whatever
    /// the order or distribution of the rows.
    pub fn render(&mut self, camera: &Camera, objects: &Vec<Hitable>)
        requires
            old(self).wf(),
            camera.wf(),
            spec_scene_wf(objects@),
        ensures
            final(self).wf(),
            final(self).same_config(*old(self)),
            exists|soh: Seq<int>, soffh: Seq<Seq<int>>|
                #[trigger] spec_rendered(*final(self), *camera, objects@, soh, soffh),
    {
        let w = self.image_width;
        let ghost mut so_hist: Seq<int> = Seq::empty();
        let ghost mut soff_hist: Seq<Seq<int>> = Seq::empty();
        let mut y: u32 = 0;
        while y < self.image_height
            invariant
                self.wf(),
                camera.wf(),
                spec_scene_wf(objects@),
                w == self.image_width,
                self.same_config(*old(self)),
                y <= self.image_height,
                so_hist.len() == y,
                soff_hist.len() == y,
                forall|yy: int|
                    0 <= yy < y ==> 0 <= #[trigger] so_hist[yy] < OFFSET_CAP,
                forall|yy: int|
                    0 <= yy < y ==> (#[trigger] soff_hist[yy]).len() == self.image_width,
                forall|yy: int, xx: int|
                    0 <= yy < y && 0 <= xx < self.image_width ==> 0 <= (
                    #[trigger] soff_hist[yy][xx]) < OFFSET_CAP,
                forall|yy: int, xx: int|
                    0 <= yy < y && 0 <= xx < self.image_width
                        ==> (#[trigger] self.image_buffer.pixels@[yy * self.image_width + xx])
                        == self.spec_pixel(
                        *camera,
                        objects@,
                        xx,
                        yy,
                        so_hist[yy],
                        soff_hist[yy][xx],
                    ),
            decreases self.image_height - y,
        {
            let set_offset = random_below(OFFSET_CAP);
            let mut sample_offsets: Vec<usize> = Vec::new();
            let mut i: u32 = 0;
            while i < w
                invariant
                    i <= w,
                    sample_offsets@.len() == i,
                    forall|j: int|
                        0 <= j < i ==> (#[trigger] sample_offsets@[j]) < OFFSET_CAP,
                decreases w - i,
            {
                sample_offsets.push(random_below(OFFSET_CAP));
                i = i + 1;
            }
            let ghost pre_self = *self;
            let row = self.trace_line(camera, objects, y, set_offset, &sample_offsets);
            let ghost pre = self.image_buffer.pixels@;
            self.image_buffer.set_pixel_line(y, &row);
            proof {
                so_hist = so_hist.push(set_offset as int);
                soff_hist = soff_hist.push(
                    Seq::new(w as nat, |j: int| sample_offsets@[j] as int),
                );
                let wi = self.image_width as int;
                let hi = self.image_height as int;
                assert(pre_self.same_config(*self));
                assert forall|yy: int, xx: int|
                    0 <= yy < y as int + 1 && 0 <= xx < self.image_width implies (
                #[trigger] self.image_buffer.pixels@[yy * self.image_width + xx])
                    == self.spec_pixel(
                    *camera,
                    objects@,
                    xx,
                    yy,
                    so_hist[yy],
                    soff_hist[yy][xx],
                ) by {
                    lemma_row_index_disjoint(wi, hi, xx, yy, y as int);
                    if yy == y as int {
                        assert(self.image_buffer.pixels@[yy * wi + xx] == row@[xx]);
                        assert(so_hist[yy] == set_offset as int);
                        assert(soff_hist[yy][xx] == sample_offsets@[xx] as int);
                        lemma_pixel_congruence(
                            pre_self,
                            *self,
                            *camera,
                            objects@,
                            xx,
                            yy,
                            set_offset as int,
                            sample_offsets@[xx] as int,
                        );
                    } else {
                        assert(self.image_buffer.pixels@[yy * wi + xx] == pre[yy * wi + xx]);
                        assert(pre[yy * wi + xx] == pre_self.spec_pixel(
                            *camera,
                            objects@,
                            xx,
                            yy,
                            so_hist[yy],
                            soff_hist[yy][xx],
                        ));
                        lemma_pixel_congruence(
                            pre_self,
                            *self,
                            *camera,
                            objects@,
                            xx,
                            yy,
                            so_hist[yy],
                            soff_hist[yy][xx],
                        );
                    }
                }
            }
            y = y + 1;
        }
        proof {
            assert(spec_rendered(*self, *camera, objects@, so_hist, soff_hist));
        }
    }
}

/// A finished render: under the given offset table, every pixel of
/// the buffer is exactly `spec_pixel` of its own coordinates and its
/// row's and pixel's offsets.
pub open spec fn spec_rendered(
    r: Renderer,
    camera: Camera,
    objs: Seq<Hitable>,
    soh: Seq<int>,
    soffh: Seq<Seq<int>>,
) -> bool {
    &&& soh.len() == r.image_height
    &&& soffh.len() == r.image_height
    &&& (forall|yy: int| 0 <= yy < r.image_height ==> 0 <= #[trigger] soh[yy] < OFFSET_CAP)
    &&& (forall|yy: int|
        0 <= yy < r.image_height ==> (#[trigger] soffh[yy]).len() == r.image_width)
    &&& (forall|yy: int, xx: int|
        0 <= yy < r.image_height && 0 <= xx < r.image_width ==> 0 <= (
        #[trigger] soffh[yy][xx]) < OFFSET_CAP)
    &&& (forall|yy: int, xx: int|
        0 <= yy < r.image_height && 0 <= xx < r.image_width
            ==> (#[trigger] r.image_buffer.pixels@[yy * r.image_width + xx]) == r.spec_pixel(
            camera,
            objs,
            xx,
            yy,
            soh[yy],
            soffh[yy][xx],
        ))
}

/// Pixels depend only on the configuration: renderers with equal
/// configurations assign every sample sum identically, whatever
/// their buffers hold.
proof fn lemma_sum_congruence(
    r1: Renderer,
    r2: Renderer,
    camera: Camera,
    objs: Seq<Hitable>,
    x: int,
    y: int,
    so: int,
    soff: int,
    k: int,
)
    requires
        r1.same_config(r2),
    ensures
        r1.spec_sample_sum(camera, objs, x, y, so, soff, k) == r2.spec_sample_sum(
            camera,
            objs,
            x,
            y,
            so,
            soff,
            k,
        ),
    decreases k,
{
    if k > 0 {
        lemma_sum_congruence(r1, r2, camera, objs, x, y, so, soff, k - 1);
        assert(r1.spec_sample_trace(camera, objs, x, y, so, soff, k - 1)
            == r2.spec_sample_trace(camera, objs, x, y, so, soff, k - 1));
    }
}

/// Pixels depend only on the configuration, never on the buffer.
pub proof fn lemma_pixel_congruence(
    r1: Renderer,
    r2: Renderer,
    camera: Camera,
    objs: Seq<Hitable>,
    x: int,
    y: int,
    so: int,
    soff: int,
)
    requires
        r1.same_config(r2),
    ensures
        r1.spec_pixel(camera, objs, x, y, so, soff) == r2.spec_pixel(
            camera,
            objs,
            x,
            y,
            so,
            soff,
        ),
{
    let n = r1.pixel_sampler.samples@[r1.spec_pixel_set_index(so, x)]@.len() as int;
    lemma_sum_congruence(r1, r2, camera, objs, x, y, so, soff, n);
}

/// A pixel index in a row below `yw` stays clear of row `yw`'s index
/// range, and every index involved is in bounds.
proof fn lemma_row_index_disjoint(w: int, h: int, xx: int, yy: int, yw: int)
    requires
        0 < w <= 16384,
        0 < h <= 16384,
        0 <= xx < w,
        0 <= yy < h,
        0 <= yw < h,
    ensures
        0 <= yy * w + xx < w * h,
        yy != yw ==> !(yw * w <= yy * w + xx < yw * w + w),
{
    assert(0 <= yy * w + xx < w * h && (yy != yw ==> !(yw * w <= yy * w + xx < yw * w + w)))
        by (nonlinear_arith)
        requires
            0 < w,
            0 <= xx < w,
            0 <= yy < h,
            0 <= yw < h,
    ;
}

/// Truncating division by a positive count cannot grow a magnitude.
proof fn lemma_sdiv_shrinks(a: int, n: int)
    requires
        n >= 1,
        -0x1000_0000_0000_0000 <= a <= 0x1000_0000_0000_0000,
    ensures
        -0x1000_0000_0000_0000 <= sdiv(a, n) <= 0x1000_0000_0000_0000,
{
    crate::fixed::lemma_sdiv_abs(a, n);
    vstd::arithmetic::div_mod::lemma_div_is_ordered_by_denominator(abs(a) as int, 1, n);
}

/// In a scene with no objects every sample traces to the ambient
/// color, so the accumulated sum is the sample count times the
/// ambient color on each channel (on top of the opaque-black seed).
proof fn lemma_sum_of_ambient(
    r: Renderer,
    camera: Camera,
    objs: Seq<Hitable>,
    x: int,
    y: int,
    so: int,
    soff: int,
    k: int,
)
    requires
        r.wf(),
        objs.len() == 0,
        0 <= k <= 0x100_0000,
    ensures
        ({
            let s = r.spec_sample_sum(camera, objs, x, y, so, soff, k);
            &&& s.r.raw == k * r.ambient_color.r.raw
            &&& s.g.raw == k * r.ambient_color.g.raw
            &&& s.b.raw == k * r.ambient_color.b.raw
            &&& s.a.raw == SCALE + k * r.ambient_color.a.raw
        }),
    decreases k,
{
    if k > 0 {
        lemma_sum_of_ambient(r, camera, objs, x, y, so, soff, k - 1);
        assert(r.spec_sample_trace(camera, objs, x, y, so, soff, k - 1) == r.ambient_color);
        assert(0 <= (k - 1) * r.ambient_color.r.raw <= (k - 1) * SCALE) by (nonlinear_arith)
            requires
                0 <= r.ambient_color.r.raw <= SCALE,
                k >= 1,
        ;
        assert(0 <= (k - 1) * r.ambient_color.g.raw <= (k - 1) * SCALE) by (nonlinear_arith)
            requires
                0 <= r.ambient_color.g.raw <= SCALE,
                k >= 1,
        ;
        assert(0 <= (k - 1) * r.ambient_color.b.raw <= (k - 1) * SCALE) by (nonlinear_arith)
            requires
                0 <= r.ambient_color.b.raw <= SCALE,
                k >= 1,
        ;
        assert(0 <= (k - 1) * r.ambient_color.a.raw <= (k - 1) * SCALE) by (nonlinear_arith)
            requires
                0 <= r.ambient_color.a.raw <= SCALE,
                k >= 1,
        ;
        assert((k - 1) * r.ambient_color.r.raw + r.ambient_color.r.raw == k
            * r.ambient_color.r.raw) by (nonlinear_arith);
        assert((k - 1) * r.ambient_color.g.raw + r.ambient_color.g.raw == k
            * r.ambient_color.g.raw) by (nonlinear_arith);
        assert((k - 1) * r.ambient_color.b.raw + r.ambient_color.b.raw == k
            * r.ambient_color.b.raw) by (nonlinear_arith);
        assert((k - 1) * r.ambient_color.a.raw + r.ambient_color.a.raw == k
            * r.ambient_color.a.raw) by (nonlinear_arith);
    }
}

/// No accumulation drift: when every sample of a pixel returns the
/// ambient color (a scene with no objects), the averaged pixel's
/// color channels equal the ambient color exactly. (The alpha
/// channel additionally carries the opaque seed, and clamps to full
/// opacity at output.)
pub proof fn lemma_pixel_of_empty_scene(
    r: Renderer,
    camera: Camera,
    objs: Seq<Hitable>,
    x: int,
    y: int,
    so: int,
    soff: int,
)
    requires
        r.wf(),
        objs.len() == 0,
    ensures
        ({
            let p = r.spec_pixel(camera, objs, x, y, so, soff);
            &&& p.r == r.ambient_color.r
            &&& p.g == r.ambient_color.g
            &&& p.b == r.ambient_color.b
        }),
{
    let psi = r.spec_pixel_set_index(so, x);
    let n = r.pixel_sampler.samples@[psi]@.len() as int;
    vstd::arithmetic::div_mod::lemma_mod_bound(
        so + x + 1,
        r.pixel_sampler.samples@.len() as int,
    );
    assert(r.pixel_sampler.samples@[psi]@.len() == r.pixel_sampler.samples@[0]@.len());
    lemma_sum_of_ambient(r, camera, objs, x, y, so, soff, n);
    let s = r.spec_sample_sum(camera, objs, x, y, so, soff, n);
    assert(n >= 1);
    vstd::arithmetic::div_mod::lemma_div_multiples_vanish(r.ambient_color.r.raw as int, n);
    vstd::arithmetic::div_mod::lemma_div_multiples_vanish(r.ambient_color.g.raw as int, n);
    vstd::arithmetic::div_mod::lemma_div_multiples_vanish(r.ambient_color.b.raw as int, n);
    assert(n * r.ambient_color.r.raw == r.ambient_color.r.raw * n) by (nonlinear_arith);
    assert(n * r.ambient_color.g.raw == r.ambient_color.g.raw * n) by (nonlinear_arith);
    assert(n * r.ambient_color.b.raw == r.ambient_color.b.raw * n) by (nonlinear_arith);
    assert(sdiv(s.r.raw as int, n) == r.ambient_color.r.raw);
    assert(sdiv(s.g.raw as int, n) == r.ambient_color.g.raw);
    assert(sdiv(s.b.raw as int, n) == r.ambient_color.b.raw);
}

/// At the specification level too, the traced radiance of a
/// well-formed scene under a unit ambient color is a unit-range
/// color.
pub proof fn lemma_spec_trace_unit(
    objs: Seq<Hitable>,
    ambient: Color,
    ctx: TraceContext,
    ray: Ray3,
    depth: int,
    maxd: int,
)
    requires
        spec_scene_wf(objs),
        ambient.unit(),
    ensures
        spec_trace(objs, ambient, ctx, ray, depth, maxd).unit(),
    decreases maxd - depth,
{
    match spec_nearest(objs, ray, objs.len() as int) {
        None => {
        },
        Some((idx, isec)) => {
            lemma_nearest_min(objs, ray, objs.len() as int);
            let m = objs[idx].spec_material();
            assert(objs[idx].wf());
            match crate::material::spec_scatter(m, ctx, ray, isec) {
                None => {
                },
                Some((att, sray)) => {
                    assert(att.unit());
                    if depth < maxd {
                        lemma_spec_trace_unit(objs, ambient, ctx, sray, depth + 1, maxd);
                        let rec = spec_trace(objs, ambient, ctx, sray, depth + 1, maxd);
                        crate::color::lemma_unit_mul(rec.r.raw as int, att.r.raw as int);
                        crate::color::lemma_unit_mul(rec.g.raw as int, att.g.raw as int);
                        crate::color::lemma_unit_mul(rec.b.raw as int, att.b.raw as int);
                        crate::color::lemma_unit_mul(rec.a.raw as int, att.a.raw as int);
                    }
                },
            }
        },
    }
}

/// The integer channel sums of a sequence of colors.
pub open spec fn spec_sum4(s: Seq<Color>) -> (int, int, int, int)
    decreases s.len(),
{
    if s.len() == 0 {
        (0, 0, 0, 0)
    } else {
        let p = spec_sum4(s.drop_last());
        let c = s.last();
        (p.0 + c.r.raw, p.1 + c.g.raw, p.2 + c.b.raw, p.3 + c.a.raw)
    }
}

/// Removing one color takes exactly its channels out of the sums.
proof fn lemma_sum4_remove(s: Seq<Color>, j: int)
    requires
        0 <= j < s.len(),
    ensures
        ({
            let whole = spec_sum4(s);
            let rest = spec_sum4(s.remove(j));
            &&& rest.0 == whole.0 - s[j].r.raw
            &&& rest.1 == whole.1 - s[j].g.raw
            &&& rest.2 == whole.2 - s[j].b.raw
            &&& rest.3 == whole.3 - s[j].a.raw
        }),
    decreases s.len(),
{
    if j == s.len() - 1 {
        assert(s.remove(j) =~= s.drop_last());
    } else {
        assert(s.remove(j).drop_last() =~= s.drop_last().remove(j));
        assert(s.remove(j).last() == s.last());
        lemma_sum4_remove(s.drop_last(), j);
        assert(s.drop_last()[j] == s[j]);
    }
}

/// Channel sums only see the multiset of colors: permuting a
/// sequence cannot change them.
pub proof fn lemma_sum4_multiset(a: Seq<Color>, b: Seq<Color>)
    requires
        a.to_multiset() == b.to_multiset(),
    ensures
        spec_sum4(a) == spec_sum4(b),
    decreases a.len(),
{
    broadcast use vstd::seq_lib::group_to_multiset_ensures;

    if a.len() == 0 {
        assert(a.to_multiset().len() == a.len());
        assert(b.to_multiset().len() == b.len());
        assert(b =~= a);
    } else {
        let x = a.last();
        assert(a.contains(x));
        assert(b.to_multiset().count(x) > 0);
        assert(b.contains(x));
        let j = choose|j: int| 0 <= j < b.len() && b[j] == x;
        let a1 = a.drop_last();
        let b1 = b.remove(j);
        assert(a1 =~= a.remove(a.len() - 1));
        assert(a1.to_multiset() =~= a.to_multiset().remove(x));
        assert(b1.to_multiset() =~= b.to_multiset().remove(x));
        lemma_sum4_multiset(a1, b1);
        lemma_sum4_remove(b, j);
    }
}

/// Every material of the scene ignores the trace context (absorbs or
/// scatters deterministically): the non-jittered materials.
pub open spec fn spec_scene_ctx_free(objs: Seq<Hitable>) -> bool {
    forall|i: int|
        0 <= i < objs.len() ==> ((#[trigger] objs[i]).spec_material() is Null
            || objs[i].spec_material() is Normal)
}

/// In a context-free scene the traced radiance does not depend on
/// the trace context at all.
pub proof fn lemma_trace_ctx_free(
    objs: Seq<Hitable>,
    ambient: Color,
    ctx1: TraceContext,
    ctx2: TraceContext,
    ray: Ray3,
    depth: int,
    maxd: int,
)
    requires
        spec_scene_ctx_free(objs),
    ensures
        spec_trace(objs, ambient, ctx1, ray, depth, maxd) == spec_trace(
            objs,
            ambient,
            ctx2,
            ray,
            depth,
            maxd,
        ),
    decreases maxd - depth,
{
    match spec_nearest(objs, ray, objs.len() as int) {
        None => {
        },
        Some((idx, isec)) => {
            lemma_nearest_min(objs, ray, objs.len() as int);
            let m = objs[idx].spec_material();
            assert(m is Null || m is Normal);
            assert(crate::material::spec_scatter(m, ctx1, ray, isec)
                == crate::material::spec_scatter(m, ctx2, ray, isec));
            match crate::material::spec_scatter(m, ctx1, ray, isec) {
                None => {
                },
                Some((att, sray)) => {
                    if depth < maxd {
                        lemma_trace_ctx_free(objs, ambient, ctx1, ctx2, sray, depth + 1, maxd);
                    }
                },
            }
        },
    }
}

/// The radiance of one unit-square sample point of pixel `(x, y)`:
/// the point function every sample of a context-free scene reduces
/// to, with the context fixed arbitrarily.
pub open spec fn spec_point_trace(
    r: Renderer,
    camera: Camera,
    objs: Seq<Hitable>,
    x: int,
    y: int,
    p: Vector2,
) -> Color {
    let corner = r.spec_pixel_corner(x, y);
    let px = corner.x.raw + spec_fmul(p.x.raw as int, r.pixel_size.raw as int);
    let py = corner.y.raw + spec_fmul(p.y.raw as int, r.pixel_size.raw as int);
    let ray = spec_generate_ray(camera, px as int, -py as int);
    spec_trace(
        objs,
        r.ambient_color,
        TraceContext { set_index: 0, sample_index: 0 },
        ray,
        0,
        r.max_trace_depth as int,
    )
}

/// In a context-free, well-formed scene the accumulated sample sum
/// is the opaque-black seed plus the channel sums of the pixel's
/// point radiances — the offsets only select which permutation of
/// the set is walked.
proof fn lemma_sample_sum_as_sum4(
    r: Renderer,
    camera: Camera,
    objs: Seq<Hitable>,
    x: int,
    y: int,
    so: int,
    soff: int,
    k: int,
)
    requires
        r.wf(),
        spec_scene_wf(objs),
        spec_scene_ctx_free(objs),
        0 <= k <= r.pixel_sampler.samples@[r.spec_pixel_set_index(so, x)]@.len(),
        0 <= r.spec_pixel_set_index(so, x) < r.pixel_sampler.samples@.len(),
        k <= 0x100_0000,
    ensures
        ({
            let set = r.pixel_sampler.samples@[r.spec_pixel_set_index(so, x)]@;
            let sum = spec_sum4(
                set.subrange(0, k).map_values(
                    |p: Vector2| spec_point_trace(r, camera, objs, x, y, p),
                ),
            );
            let s = r.spec_sample_sum(camera, objs, x, y, so, soff, k);
            &&& s.r.raw == sum.0
            &&& s.g.raw == sum.1
            &&& s.b.raw == sum.2
            &&& s.a.raw == SCALE + sum.3
            &&& 0 <= sum.0 <= k * SCALE
            &&& 0 <= sum.1 <= k * SCALE
            &&& 0 <= sum.2 <= k * SCALE
            &&& 0 <= sum.3 <= k * SCALE
        }),
    decreases k,
{
    let set = r.pixel_sampler.samples@[r.spec_pixel_set_index(so, x)]@;
    let f = |p: Vector2| spec_point_trace(r, camera, objs, x, y, p);
    if k == 0 {
        assert(set.subrange(0, 0).map_values(f) =~= Seq::<Color>::empty());
    } else {
        lemma_sample_sum_as_sum4(r, camera, objs, x, y, so, soff, k - 1);
        let m = set.subrange(0, k).map_values(f);
        assert(m.drop_last() =~= set.subrange(0, k - 1).map_values(f));
        assert(m.last() == f(set[k - 1]));
        let sample = set[k - 1];
        let corner = r.spec_pixel_corner(x, y);
        let px = corner.x.raw + spec_fmul(sample.x.raw as int, r.pixel_size.raw as int);
        let py = corner.y.raw + spec_fmul(sample.y.raw as int, r.pixel_size.raw as int);
        let ray = spec_generate_ray(camera, px as int, -py as int);
        lemma_trace_ctx_free(
            objs,
            r.ambient_color,
            TraceContext {
                set_index: (so + x + 1) as usize,
                sample_index: (soff + k - 1) as usize,
            },
            TraceContext { set_index: 0, sample_index: 0 },
            ray,
            0,
            r.max_trace_depth as int,
        );
        lemma_spec_trace_unit(
            objs,
            r.ambient_color,
            TraceContext { set_index: 0, sample_index: 0 },
            ray,
            0,
            r.max_trace_depth as int,
        );
        assert(r.spec_sample_trace(camera, objs, x, y, so, soff, k - 1) == f(set[k - 1]));
        assert((k - 1) * SCALE + SCALE == k * SCALE) by (nonlinear_arith);
        assert(0 <= (k - 1) * SCALE) by (nonlinear_arith)
            requires
                k >= 1,
        ;
    }
}

/// Offset independence for deterministic (non-jittered) samplers:
/// when every set of the pixel sampler holds one shared point
/// multiset — as every sampler of this library guarantees — and
/// every material of the well-formed scene ignores the trace
/// context, the finished pixel does not depend on the random set and
/// sample offsets at all. Together with the per-pixel determinism of
/// `trace_line` and `lemma_row_writes_commute`, parallelism cannot
/// change such a render.
pub proof fn lemma_pixel_offset_free(
    r: Renderer,
    camera: Camera,
    objs: Seq<Hitable>,
    x: int,
    y: int,
    so1: int,
    soff1: int,
    so2: int,
    soff2: int,
)
    requires
        r.wf(),
        spec_scene_wf(objs),
        spec_scene_ctx_free(objs),
        forall|s1: int, s2: int|
            0 <= s1 < r.pixel_sampler.samples@.len() && 0 <= s2
                < r.pixel_sampler.samples@.len() ==> (
            #[trigger] r.pixel_sampler.samples@[s1]@.to_multiset()) == (
            #[trigger] r.pixel_sampler.samples@[s2]@.to_multiset()),
    ensures
        r.spec_pixel(camera, objs, x, y, so1, soff1) == r.spec_pixel(
            camera,
            objs,
            x,
            y,
            so2,
            soff2,
        ),
{
    let len = r.pixel_sampler.samples@.len() as int;
    vstd::arithmetic::div_mod::lemma_mod_bound(so1 + x + 1, len);
    vstd::arithmetic::div_mod::lemma_mod_bound(so2 + x + 1, len);
    let psi1 = r.spec_pixel_set_index(so1, x);
    let psi2 = r.spec_pixel_set_index(so2, x);
    let set1 = r.pixel_sampler.samples@[psi1]@;
    let set2 = r.pixel_sampler.samples@[psi2]@;
    let n = set1.len() as int;
    assert(set1.len() == r.pixel_sampler.samples@[0]@.len());
    assert(set2.len() == r.pixel_sampler.samples@[0]@.len());
    let f = |p: Vector2| spec_point_trace(r, camera, objs, x, y, p);
    lemma_sample_sum_as_sum4(r, camera, objs, x, y, so1, soff1, n);
    lemma_sample_sum_as_sum4(r, camera, objs, x, y, so2, soff2, n);
    assert(set1.subrange(0, n) =~= set1);
    assert(set2.subrange(0, n) =~= set2);
    lemma_map_values_multiset_colors(set1, set2, f);
    lemma_sum4_multiset(set1.map_values(f), set2.map_values(f));
}

/// Mapping two point sequences with one shared multiset yields two
/// color sequences with one shared multiset.
proof fn lemma_map_values_multiset_colors(
    a: Seq<Vector2>,
    b: Seq<Vector2>,
    f: spec_fn(Vector2) -> Color,
)
    requires
        a.to_multiset() == b.to_multiset(),
    ensures
        a.map_values(f).to_multiset() == b.map_values(f).to_multiset(),
{
    crate::sampler::lemma_map_values_multiset(a, b, f);
}

/// Absorption: a ray whose hit declines to scatter contributes
/// exactly black.
pub proof fn lemma_trace_absorbed(
    objs: Seq<Hitable>,
    ambient: Color,
    ctx: TraceContext,
    ray: Ray3,
    depth: int,
    maxd: int,
)
    requires
        spec_nearest(objs, ray, objs.len() as int) matches Some((idx, isec))
            && crate::material::spec_scatter(objs[idx].spec_material(), ctx, ray, isec)
            is None,
    ensures
        spec_trace(objs, ambient, ctx, ray, depth, maxd) == spec_black(),
{
}


impl RendererConfig {
    /// Checks `valid` at run time, for callers handing in a
    /// configuration from outside.
    pub fn check_valid(&self) -> (r: bool)
        ensures
            r == self.valid(),
    {
        let threads_ok = match self.num_render_threads {
            Some(n) => n >= 1,
            None => true,
        };
        0 < self.image_width && self.image_width <= MAX_DIM && 0 < self.image_height
            && self.image_height <= MAX_DIM && 0 < self.pixel_size.raw && self.pixel_size.raw
            <= PIXEL_SIZE_LIMIT && self.pixel_sampler.check_wf()
            && self.pixel_sampler.samples[0].len() <= 0x100_0000 && color_unit_check(
            &self.ambient_color,
        ) && threads_ok
    }
}

/// Checks that every channel lies in the unit interval.
fn color_unit_check(c: &Color) -> (r: bool)
    ensures
        r == c.unit(),
{
    0 <= c.r.raw && c.r.raw <= SCALE && 0 <= c.g.raw && c.g.raw <= SCALE && 0 <= c.b.raw
        && c.b.raw <= SCALE && 0 <= c.a.raw && c.a.raw <= SCALE
}

/// Checks every scene object's well-formedness at run time.
pub fn scene_check_wf(objects: &Vec<Hitable>) -> (r: bool)
    ensures
        r == spec_scene_wf(objects@),
{
    let mut k: usize = 0;
    while k < objects.len()
        invariant
            k <= objects@.len(),
            forall|i: int| 0 <= i < k ==> (#[trigger] objects@[i]).wf(),
        decreases objects@.len() - k,
    {
        if !objects[k].check_wf() {
            return false;
        }
        k = k + 1;
    }
    true
}

} // verus!
