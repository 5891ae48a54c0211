//! Diagnostic painting: a line-drawing helper and painters that plot
//! a sampler's point sets into a buffer, for inspecting sample
//! distributions by eye.

use vstd::prelude::*;

verus! {

use crate::RenderBuffer;
use crate::color::Color;
use crate::fixed::{Fx, SCALE, spec_fmul, lemma_fmul_bound};
use crate::sampler::{UnitSquareSampler, HemiSphereSampler};

/// The x/y projection plot color: pure red.
pub open spec fn spec_plot_red() -> Color {
    Color { r: Fx { raw: SCALE }, g: Fx { raw: 0 }, b: Fx { raw: 0 }, a: Fx { raw: SCALE } }
}

/// The x/z projection plot color: pure green.
pub open spec fn spec_plot_green() -> Color {
    Color { r: Fx { raw: 0 }, g: Fx { raw: SCALE }, b: Fx { raw: 0 }, a: Fx { raw: SCALE } }
}

/// The grid-line color: a dark grey.
pub open spec fn spec_line_color() -> Color {
    Color {
        r: Fx { raw: 13107 },
        g: Fx { raw: 13107 },
        b: Fx { raw: 13107 },
        a: Fx { raw: SCALE },
    }
}

/// After a painting pass every pixel is either untouched or holds
/// one of the painter's colors.
pub open spec fn spec_painted_with(
    before: Seq<Color>,
    after: Seq<Color>,
    c1: Color,
    c2: Color,
) -> bool {
    &&& after.len() == before.len()
    &&& forall|i: int|
        0 <= i < after.len() ==> (#[trigger] after[i]) == before[i] || after[i] == c1
            || after[i] == c2
}

/// Draws an axis-leaning line from the start toward the end point by
/// integer error accumulation. Every pixel either keeps its color or
/// takes the line color; coordinates that wander out of the buffer
/// are skipped.
pub fn draw_line(render_buffer: &mut RenderBuffer, start_x: u32, start_y: u32, end_x: u32, end_y: u32)
    requires
        old(render_buffer).wf(),
        start_x < old(render_buffer).width,
        start_y < old(render_buffer).height,
        end_x < old(render_buffer).width,
        end_y < old(render_buffer).height,
    ensures
        final(render_buffer).wf(),
        final(render_buffer).width == old(render_buffer).width,
        final(render_buffer).height == old(render_buffer).height,
        spec_painted_with(
            old(render_buffer).pixels@,
            final(render_buffer).pixels@,
            spec_line_color(),
            spec_line_color(),
        ),
{
    let x0: i64 = start_x as i64;
    let y0: i64 = start_y as i64;
    let x1: i64 = end_x as i64;
    let y1: i64 = end_y as i64;
    let dx: i64 = x1 - x0;
    let dy: i64 = y1 - y0;

    let color = Color {
        r: Fx { raw: 13107 },
        g: Fx { raw: 13107 },
        b: Fx { raw: 13107 },
        a: Fx { raw: SCALE },
    };

    if dx > dy {
        let mut d: i64 = 2 * dy - dx;
        let mut y: i64 = y0;
        let mut x: i64 = x0;
        while x < x1
            invariant
                render_buffer.wf(),
                render_buffer.width == old(render_buffer).width,
                render_buffer.height == old(render_buffer).height,
                0 <= x0,
                x0 <= x,
                x <= x1 || x == x0,
                x1 < render_buffer.width,
                y0 <= y <= y0 + (x - x0),
                0 <= y0 < render_buffer.height,
                -0x10_0000_0000 - (x - x0) * 0x10000 <= d <= 0x10_0000_0000 + (x - x0)
                    * 0x10000,
                -0x4000 <= dy <= 0x4000,
                -0x4000 <= dx <= 0x4000,
                spec_painted_with(
                    old(render_buffer).pixels@,
                    render_buffer.pixels@,
                    color,
                    color,
                ),
            decreases x1 - x,
        {
            if 0 <= y && y < render_buffer.height as i64 {
                let ghost pre = render_buffer.pixels@;
                render_buffer.set_pixel(x as u32, y as u32, color);
                proof {
                    assert(0 <= (y as int) * (render_buffer.width as int) + (x as int)
                        < pre.len()) by (nonlinear_arith)
                        requires
                            0 <= (y as int) < (render_buffer.height as int),
                            0 <= (x as int) < (render_buffer.width as int),
                            pre.len() == (render_buffer.width as int) * (
                            render_buffer.height as int),
                    ;
                    let idx = (y as int) * (render_buffer.width as int) + (x as int);
                    assert(render_buffer.pixels@ == pre.update(idx, color));
                    lemma_painted_step(old(render_buffer).pixels@, pre, render_buffer.pixels@, color, color, color);
                }
            }
            if d > 0 {
                y = y + 1;
                d = d - 2 * dx;
            }
            d = d + 2 * dy;
            x = x + 1;
        }
    } else {
        let mut d: i64 = 2 * dx - dy;
        let mut x: i64 = x0;
        let mut y: i64 = y0;
        while y < y1
            invariant
                render_buffer.wf(),
                render_buffer.width == old(render_buffer).width,
                render_buffer.height == old(render_buffer).height,
                0 <= y0,
                y0 <= y,
                y <= y1 || y == y0,
                y1 < render_buffer.height,
                x0 <= x <= x0 + (y - y0),
                0 <= x0 < render_buffer.width,
                -0x10_0000_0000 - (y - y0) * 0x10000 <= d <= 0x10_0000_0000 + (y - y0)
                    * 0x10000,
                -0x4000 <= dy <= 0x4000,
                -0x4000 <= dx <= 0x4000,
                spec_painted_with(
                    old(render_buffer).pixels@,
                    render_buffer.pixels@,
                    color,
                    color,
                ),
            decreases y1 - y,
        {
            if 0 <= x && x < render_buffer.width as i64 {
                let ghost pre = render_buffer.pixels@;
                render_buffer.set_pixel(x as u32, y as u32, color);
                proof {
                    assert(0 <= (y as int) * (render_buffer.width as int) + (x as int)
                        < pre.len()) by (nonlinear_arith)
                        requires
                            0 <= (y as int) < (render_buffer.height as int),
                            0 <= (x as int) < (render_buffer.width as int),
                            pre.len() == (render_buffer.width as int) * (
                            render_buffer.height as int),
                    ;
                    let idx = (y as int) * (render_buffer.width as int) + (x as int);
                    assert(render_buffer.pixels@ == pre.update(idx, color));
                    lemma_painted_step(old(render_buffer).pixels@, pre, render_buffer.pixels@, color, color, color);
                }
            }
            if d > 0 {
                x = x + 1;
                d = d - 2 * dy;
            }
            d = d + 2 * dx;
            y = y + 1;
        }
    }
}

/// Painting one more pixel in either allowed color keeps the
/// painted-with relation.
proof fn lemma_painted_step(
    base: Seq<Color>,
    pre: Seq<Color>,
    post: Seq<Color>,
    c1: Color,
    c2: Color,
    c: Color,
)
    requires
        spec_painted_with(base, pre, c1, c2),
        post.len() == pre.len(),
        c == c1 || c == c2,
        exists|j: int| 0 <= j < pre.len() && post == pre.update(j, c),
    ensures
        spec_painted_with(base, post, c1, c2),
{
    let j = choose|j: int| 0 <= j < pre.len() && post == pre.update(j, c);
    assert forall|i: int|
        0 <= i < post.len() implies (#[trigger] post[i]) == base[i] || post[i] == c1 || post[i]
        == c2 by {
        if i != j {
            assert(post[i] == pre[i]);
        }
    }
}

/// The floor of a non-negative scalar as a pixel count.
fn floor_px(v: Fx) -> (r: u32)
    requires
        0 <= v.raw <= 0xFFFF_0000_0000,
    ensures
        r == v.raw as int / (SCALE as int),
{
    proof {
        vstd::arithmetic::div_mod::lemma_div_is_ordered(
            v.raw as int,
            0xFFFF_0000_0000,
            SCALE as int,
        );
        vstd::arithmetic::div_mod::lemma_div_pos_is_pos(v.raw as int, SCALE as int);
    }
    ((v.raw as u128) / 65536) as u32
}

/// Plots the first set of a unit-square sampler as white points into
/// a `dim`-sized box at the given offset.
pub fn render_unit_square_sampler(
    render_buffer: &mut RenderBuffer,
    offset_x: u32,
    offset_y: u32,
    dim: Fx,
    sampler: &UnitSquareSampler,
)
    requires
        old(render_buffer).wf(),
        sampler.wf(),
        sampler.points_ok(),
        0 <= dim.raw <= 0x2000_0000,
        offset_x + dim.raw / SCALE < old(render_buffer).width,
        offset_y + dim.raw / SCALE < old(render_buffer).height,
    ensures
        final(render_buffer).wf(),
        final(render_buffer).width == old(render_buffer).width,
        final(render_buffer).height == old(render_buffer).height,
        spec_painted_with(
            old(render_buffer).pixels@,
            final(render_buffer).pixels@,
            crate::color::spec_white(),
            crate::color::spec_white(),
        ),
{
    let white = Color::white();
    let set = &sampler.samples[0];
    let mut k: usize = 0;
    while k < set.len()
        invariant
            render_buffer.wf(),
            render_buffer.width == old(render_buffer).width,
            render_buffer.height == old(render_buffer).height,
            sampler.wf(),
            sampler.points_ok(),
            set@ == sampler.samples@[0]@,
            0 <= dim.raw <= 0x2000_0000,
            offset_x + dim.raw / SCALE < render_buffer.width,
            offset_y + dim.raw / SCALE < render_buffer.height,
            white == crate::color::spec_white(),
            k <= set@.len(),
            spec_painted_with(
                old(render_buffer).pixels@,
                render_buffer.pixels@,
                white,
                white,
            ),
        decreases set@.len() - k,
    {
        let sample = set[k];
        proof {
            assert(crate::sampler::in_unit_square(sample));
            lemma_fmul_bound(dim.raw as int, sample.x.raw as int, 0x2000_0000, SCALE as int);
            lemma_fmul_bound(dim.raw as int, sample.y.raw as int, 0x2000_0000, SCALE as int);
            lemma_unit_scale_le(dim.raw as int, sample.x.raw as int);
            lemma_unit_scale_le(dim.raw as int, sample.y.raw as int);
        }
        let vx = dim.fmul(sample.x);
        let vy = dim.fmul(sample.y);
        let px = offset_x + floor_px(vx);
        let py = offset_y + floor_px(vy);
        let ghost pre = render_buffer.pixels@;
        render_buffer.set_pixel(px, py, white);
        proof {
            assert(0 <= (py as int) * (render_buffer.width as int) + (px as int)
                < pre.len()) by (nonlinear_arith)
                requires
                    0 <= (py as int) < (render_buffer.height as int),
                    0 <= (px as int) < (render_buffer.width as int),
                    pre.len() == (render_buffer.width as int) * (
                    render_buffer.height as int),
            ;
            let idx = (py as int) * (render_buffer.width as int) + (px as int);
            assert(render_buffer.pixels@ == pre.update(idx, white));
            lemma_painted_step(old(render_buffer).pixels@, pre, render_buffer.pixels@, white, white, white);
        }
        k = k + 1;
    }
}

/// Scaling a unit-interval value cannot push the floor past the
/// scale's own floor.
proof fn lemma_unit_scale_le(dimr: int, s: int)
    requires
        0 <= dimr,
        0 <= s <= SCALE,
    ensures
        0 <= spec_fmul(dimr, s) / (SCALE as int) <= dimr / (SCALE as int),
{
    assert(dimr * s <= dimr * SCALE) by (nonlinear_arith)
        requires
            0 <= dimr,
            s <= SCALE,
    ;
    assert(dimr * s >= 0) by (nonlinear_arith)
        requires
            dimr >= 0,
            s >= 0,
    ;
    vstd::arithmetic::div_mod::lemma_div_is_ordered(dimr * s, dimr * SCALE, SCALE as int);
    vstd::arithmetic::div_mod::lemma_div_multiples_vanish(dimr, SCALE as int);
    assert(dimr * SCALE == SCALE * dimr) by (nonlinear_arith);
    vstd::arithmetic::div_mod::lemma_div_pos_is_pos(dimr * s, SCALE as int);
    vstd::arithmetic::div_mod::lemma_div_is_ordered(0, spec_fmul(dimr, s), SCALE as int);
    vstd::arithmetic::div_mod::lemma_div_is_ordered(
        spec_fmul(dimr, s),
        dimr,
        SCALE as int,
    );
}

/// Plots the first set of a hemisphere sampler: the x/y projection
/// in red and the x/z projection in green, each mapped from `[-1, 1]`
/// into a `dim`-sized box at the given offset.
pub fn render_hemi_sphere_sampler(
    render_buffer: &mut RenderBuffer,
    offset_x: u32,
    offset_y: u32,
    dim: Fx,
    sampler: &HemiSphereSampler,
)
    requires
        old(render_buffer).wf(),
        sampler.wf(),
        sampler.points_ok(),
        0 <= dim.raw <= 0x2000_0000,
        offset_x + dim.raw / SCALE < old(render_buffer).width,
        offset_y + dim.raw / SCALE < old(render_buffer).height,
    ensures
        final(render_buffer).wf(),
        final(render_buffer).width == old(render_buffer).width,
        final(render_buffer).height == old(render_buffer).height,
        spec_painted_with(
            old(render_buffer).pixels@,
            final(render_buffer).pixels@,
            spec_plot_red(),
            spec_plot_green(),
        ),
{
    let red = Color { r: Fx::one(), g: Fx::zero(), b: Fx::zero(), a: Fx::one() };
    let green = Color { r: Fx::zero(), g: Fx::one(), b: Fx::zero(), a: Fx::one() };
    let set = &sampler.samples[0];
    let mut k: usize = 0;
    while k < set.len()
        invariant
            render_buffer.wf(),
            render_buffer.width == old(render_buffer).width,
            render_buffer.height == old(render_buffer).height,
            sampler.wf(),
            sampler.points_ok(),
            set@ == sampler.samples@[0]@,
            0 <= dim.raw <= 0x2000_0000,
            offset_x + dim.raw / SCALE < render_buffer.width,
            offset_y + dim.raw / SCALE < render_buffer.height,
            red == spec_plot_red(),
            green == spec_plot_green(),
            k <= set@.len(),
            spec_painted_with(
                old(render_buffer).pixels@,
                render_buffer.pixels@,
                spec_plot_red(),
                spec_plot_green(),
            ),
        decreases set@.len() - k,
    {
        let vec = set[k];
        proof {
            assert(crate::sampler::hemi_ok(vec));
        }
        let x = half_box(dim, vec.x);
        let y = half_box(dim, vec.y);
        let z = half_box(dim, vec.z);
        let px: u32 = offset_x + x;
        let py: u32 = offset_y + y;
        let pz: u32 = offset_y + z;
        let ghost pre1 = render_buffer.pixels@;
        render_buffer.set_pixel(px, py, red);
        proof {
            lemma_plot_write(*old(render_buffer), pre1, render_buffer.pixels@, px, py, red, *render_buffer);
        }
        let ghost pre2 = render_buffer.pixels@;
        render_buffer.set_pixel(px, pz, green);
        proof {
            lemma_plot_write(*old(render_buffer), pre2, render_buffer.pixels@, px, pz, green, *render_buffer);
        }
        k = k + 1;
    }
}

/// One plotted point keeps the two-color painted-with relation.
proof fn lemma_plot_write(
    base: RenderBuffer,
    pre: Seq<Color>,
    post: Seq<Color>,
    px: u32,
    py: u32,
    c: Color,
    buf: RenderBuffer,
)
    requires
        spec_painted_with(base.pixels@, pre, spec_plot_red(), spec_plot_green()),
        c == spec_plot_red() || c == spec_plot_green(),
        buf.wf(),
        px < buf.width,
        py < buf.height,
        pre.len() == buf.pixels@.len(),
        post == pre.update(py * buf.width + px, c),
        post == buf.pixels@,
    ensures
        spec_painted_with(base.pixels@, post, spec_plot_red(), spec_plot_green()),
{
    let idx = py * buf.width + px;
    assert(0 <= idx < pre.len()) by (nonlinear_arith)
        requires
            0 <= px < buf.width,
            0 <= py < buf.height,
            pre.len() == buf.pixels@.len(),
            buf.pixels@.len() == buf.width * buf.height,
            idx == py * buf.width + px,
    ;
    lemma_painted_step(base.pixels@, pre, post, spec_plot_red(), spec_plot_green(), c);
}

/// Maps a component of a hemisphere direction from `[-1, 1]` into
/// `0..dim` pixels: the floor of `dim * (v + 1) / 2`.
fn half_box(dim: Fx, v: Fx) -> (r: u32)
    requires
        0 <= dim.raw <= 0x2000_0000,
        -SCALE <= v.raw <= SCALE,
    ensures
        r <= dim.raw as int / (SCALE as int),
{
    proof {
        lemma_fmul_bound(dim.raw as int, v.raw + SCALE, 0x2000_0000, 2 * SCALE as int);
        lemma_half_box_le(dim.raw as int, v.raw as int);
    }
    let shifted = Fx { raw: v.raw + 65536 };
    let scaled = dim.fmul(shifted);
    let halved = Fx { raw: scaled.raw / 2 };
    floor_px(halved)
}

/// The mapped coordinate stays within the box.
proof fn lemma_half_box_le(dimr: int, vr: int)
    requires
        0 <= dimr <= 0x2000_0000,
        -SCALE <= vr <= SCALE,
    ensures
        0 <= sdiv_pos(spec_fmul(dimr, vr + SCALE)) / (SCALE as int) <= dimr / (SCALE as int),
        spec_fmul(dimr, vr + SCALE) >= 0,
{
    assert(dimr * (vr + SCALE) >= 0) by (nonlinear_arith)
        requires
            dimr >= 0,
            vr + SCALE >= 0,
    ;
    assert(dimr * (vr + SCALE) <= dimr * (2 * SCALE)) by (nonlinear_arith)
        requires
            0 <= dimr,
            vr + SCALE <= 2 * SCALE,
    ;
    vstd::arithmetic::div_mod::lemma_div_is_ordered(0, dimr * (vr + SCALE), SCALE as int);
    vstd::arithmetic::div_mod::lemma_div_is_ordered(
        dimr * (vr + SCALE),
        dimr * (2 * SCALE),
        SCALE as int,
    );
    assert((dimr * (2 * SCALE)) / (SCALE as int) == 2 * dimr) by {
        assert(dimr * (2 * SCALE) == (SCALE as int) * (2 * dimr)) by (nonlinear_arith);
        vstd::arithmetic::div_mod::lemma_div_multiples_vanish(2 * dimr, SCALE as int);
    }
    let q = spec_fmul(dimr, vr + SCALE);
    assert(0 <= q <= 2 * dimr);
    vstd::arithmetic::div_mod::lemma_div_is_ordered(0, q / 2, SCALE as int);
    vstd::arithmetic::div_mod::lemma_div_is_ordered_by_denominator(q, 1, 2);
    vstd::arithmetic::div_mod::lemma_div_is_ordered(q / 2, dimr, SCALE as int);
    assert(q / 2 <= dimr) by {
        vstd::arithmetic::div_mod::lemma_div_is_ordered(q, 2 * dimr, 2);
        vstd::arithmetic::div_mod::lemma_div_multiples_vanish(dimr, 2);
    }
}

/// Truncation of a non-negative value is plain division.
pub open spec fn sdiv_pos(q: int) -> int {
    q / 2
}

} // verus!
