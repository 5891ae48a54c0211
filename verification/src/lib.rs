//! A small path-tracing renderer whose arithmetic is carried out in
//! fixed-point: every scalar is an integer count of 1/65536 world units.
//! Geometry, sampling, material scattering and the recursive light
//! transport are verified; file output and thread scheduling live with
//! the caller.

use vstd::prelude::*;

pub mod camera;
pub mod color;
pub mod fixed;
pub mod io;
pub mod material;
pub mod matrix;
pub mod preview;
pub mod random;
pub mod ray;
pub mod sampler;
pub mod shapes;
pub mod trace;
pub mod trig;
pub mod vector;

verus! {

use crate::color::{Color, spec_channel_byte, channel_byte};
use crate::io::{OutputStream, spec_le16, spec_le32};

/// Selects which precomputed sample a material bounce consumes:
/// `set_index` picks a shuffled sample set, `sample_index` a point in it.
#[derive(Clone, Copy, Debug)]
pub struct TraceContext {
    pub set_index: usize,
    pub sample_index: usize,
}

/// Largest accepted image dimension.
pub const MAX_DIM: u32 = 16384;

/// A 2-dimensional pixel buffer.
/// The x coordinate goes from 0 to width (exclusive), from left to right.
/// The y coordinate goes from 0 to height (exclusive), from top to bottom.
#[derive(Clone, Debug)]
pub struct RenderBuffer {
    pub width: u32,
    pub height: u32,
    pub pixels: Vec<Color>,
}

/// The three bytes of one encoded pixel: blue, green, red.
pub open spec fn spec_px_bytes(c: Color) -> Seq<u8> {
    seq![
        spec_channel_byte(c.b.raw as int) as u8,
        spec_channel_byte(c.g.raw as int) as u8,
        spec_channel_byte(c.r.raw as int) as u8,
    ]
}

/// The zero bytes that pad one encoded row to a multiple of four.
pub open spec fn spec_pad(w: int) -> Seq<u8> {
    Seq::new((((4 - w % 4) % 4) as nat), |i: int| 0u8)
}

/// The first `x` encoded pixels of source row `y`.
pub open spec fn spec_row_bytes(pixels: Seq<Color>, w: int, y: int, x: int) -> Seq<u8>
    decreases x,
{
    if x <= 0 {
        Seq::empty()
    } else {
        spec_row_bytes(pixels, w, y, x - 1) + spec_px_bytes(pixels[y * w + (x - 1)])
    }
}

/// The first `n` encoded rows, written bottom-up: output row `k`
/// holds source row `h - 1 - k`, followed by its padding.
pub open spec fn spec_rows(pixels: Seq<Color>, w: int, h: int, n: int) -> Seq<u8>
    decreases n,
{
    if n <= 0 {
        Seq::empty()
    } else {
        spec_rows(pixels, w, h, n - 1) + spec_row_bytes(pixels, w, h - n, w) + spec_pad(w)
    }
}

/// One row of the grid replaced by new pixels, everything else kept.
pub open spec fn spec_write_row(pixels: Seq<Color>, w: int, y: int, row: Seq<Color>) -> Seq<
    Color,
> {
    Seq::new(pixels.len(), |i: int| if y * w <= i < y * w + w {
        row[i - y * w]
    } else {
        pixels[i]
    })
}

/// The 54 header bytes of the bitmap file: the file header, then the
/// 40-byte info header for a 24-bit uncompressed image.
pub open spec fn spec_bmp_header(w: int, h: int) -> Seq<u8> {
    let pad = (4 - w % 4) % 4;
    let image_size = (w * 3 + pad) * h;
    let file_size = 54 + image_size;
    seq![0x42u8, 0x4du8] + spec_le32(file_size) + spec_le16(0) + spec_le16(0) + spec_le32(54)
        + spec_le32(40) + spec_le32(w) + spec_le32(h) + spec_le16(1) + spec_le16(24) + spec_le32(
        0,
    ) + spec_le32(image_size) + spec_le32(0) + spec_le32(0) + spec_le32(0) + spec_le32(0)
}

/// The whole bitmap file: header, then every row bottom-up.
pub open spec fn spec_bmp(b: RenderBuffer) -> Seq<u8> {
    spec_bmp_header(b.width as int, b.height as int) + spec_rows(
        b.pixels@,
        b.width as int,
        b.height as int,
        b.height as int,
    )
}

impl RenderBuffer {
    /// Dimensions are positive, bounded, and the flat pixel vector
    /// covers the whole grid in row-major order.
    pub open spec fn wf(self) -> bool {
        &&& 0 < self.width <= MAX_DIM
        &&& 0 < self.height <= MAX_DIM
        &&& self.pixels@.len() == self.width * self.height
    }

    /// A buffer of the given dimensions, fully transparent black.
    pub fn new(width: u32, height: u32) -> (r: RenderBuffer)
        requires
            0 < width <= MAX_DIM,
            0 < height <= MAX_DIM,
        ensures
            r.wf(),
            r.width == width,
            r.height == height,
            forall|i: int|
                0 <= i < width * height ==> (#[trigger] r.pixels@[i]) == (Color {
                    r: crate::fixed::Fx { raw: 0 },
                    g: crate::fixed::Fx { raw: 0 },
                    b: crate::fixed::Fx { raw: 0 },
                    a: crate::fixed::Fx { raw: 0 },
                }),
    {
        proof {
            assert(width * height <= 0x1000_0000) by (nonlinear_arith)
                requires
                    width <= 16384,
                    height <= 16384,
            ;
        }
        let total: usize = (width as usize) * (height as usize);
        let mut pixels: Vec<Color> = Vec::new();
        let clear = Color {
            r: crate::fixed::Fx::zero(),
            g: crate::fixed::Fx::zero(),
            b: crate::fixed::Fx::zero(),
            a: crate::fixed::Fx::zero(),
        };
        let mut i: usize = 0;
        while i < total
            invariant
                i <= total,
                pixels@.len() == i,
                forall|k: int| 0 <= k < i ==> (#[trigger] pixels@[k]) == clear,
                clear.r.raw == 0 && clear.g.raw == 0 && clear.b.raw == 0 && clear.a.raw == 0,
            decreases total - i,
        {
            pixels.push(clear);
            i = i + 1;
        }
        RenderBuffer { width, height, pixels }
    }

    /// Overwrites the pixel at `(x, y)`; everything else is kept.
    pub fn set_pixel(&mut self, x: u32, y: u32, color: Color)
        requires
            old(self).wf(),
            x < old(self).width,
            y < old(self).height,
        ensures
            final(self).wf(),
            final(self).width == old(self).width,
            final(self).height == old(self).height,
            final(self).pixels@ == old(self).pixels@.update(
                y * old(self).width + x,
                color,
            ),
    {
        proof {
            lemma_grid_index(self.width as int, self.height as int, x as int, y as int);
        }
        let pos: usize = (y as usize) * (self.width as usize) + (x as usize);
        self.pixels.set(pos, color);
    }

    /// Reads the pixel at `(x, y)`.
    pub fn pixel(&self, x: u32, y: u32) -> (c: Color)
        requires
            self.wf(),
            x < self.width,
            y < self.height,
        ensures
            c == self.pixels@[y * self.width + x],
    {
        proof {
            lemma_grid_index(self.width as int, self.height as int, x as int, y as int);
        }
        let pos: usize = (y as usize) * (self.width as usize) + (x as usize);
        self.pixels[pos]
    }

    /// Replaces the whole row `y` by the given pixels; every other row
    /// is kept.
    pub fn set_pixel_line(&mut self, y: u32, pixels: &Vec<Color>)
        requires
            old(self).wf(),
            y < old(self).height,
            pixels@.len() == old(self).width,
        ensures
            final(self).wf(),
            final(self).width == old(self).width,
            final(self).height == old(self).height,
            forall|x: int|
                0 <= x < old(self).width ==> final(self).pixels@[y * old(self).width + x] == (
                #[trigger] pixels@[x]),
            forall|i: int|
                0 <= i < old(self).pixels@.len() && !(y * old(self).width <= i < y * old(
                    self,
                ).width + old(self).width) ==> final(self).pixels@[i] == (#[trigger] old(
                    self,
                ).pixels@[i]),
            final(self).pixels@ == spec_write_row(
                old(self).pixels@,
                old(self).width as int,
                y as int,
                pixels@,
            ),
    {
        let mut x: u32 = 0;
        while x < self.width
            invariant
                self.wf(),
                self.width == old(self).width,
                self.height == old(self).height,
                old(self).pixels@.len() == self.pixels@.len(),
                y < self.height,
                x <= self.width,
                pixels@.len() == self.width,
                forall|k: int|
                    0 <= k < x ==> self.pixels@[y * self.width + k] == (#[trigger] pixels@[k]),
                forall|i: int|
                    0 <= i < old(self).pixels@.len() && !(y * self.width <= i < y * self.width
                        + x) ==> self.pixels@[i] == (#[trigger] old(self).pixels@[i]),
            decreases self.width - x,
        {
            let ghost prev = self.pixels@;
            self.set_pixel(x, y, pixels[x as usize]);
            proof {
                let w = self.width as int;
                let h = self.height as int;
                let yy = y as int;
                let j = yy * w + x as int;
                lemma_grid_index(w, h, x as int, yy);
                assert(self.pixels@ == prev.update(j, pixels@[x as int]));
                assert forall|k: int| 0 <= k < x as int + 1 implies self.pixels@[yy * w + k]
                    == pixels@[k] by {
                    lemma_grid_index(w, h, k, yy);
                    if k < x as int {
                        assert(self.pixels@[yy * w + k] == prev[yy * w + k]);
                    }
                }
                assert forall|i: int|
                    0 <= i < old(self).pixels@.len() && !(yy * w <= i < yy * w + x as int
                        + 1) implies self.pixels@[i] == old(self).pixels@[i] by {
                    assert(i != j);
                    assert(prev.update(j, pixels@[x as int])[i] == prev[i]);
                    assert(self.pixels@[i] == prev[i]);
                    assert(prev[i] == old(self).pixels@[i]);
                }
            }
            x = x + 1;
        }
        proof {
            let w = self.width as int;
            let h = self.height as int;
            let yy = y as int;
            assert forall|i: int|
                0 <= i < self.pixels@.len() implies self.pixels@[i] == spec_write_row(
                old(self).pixels@,
                w,
                yy,
                pixels@,
            )[i] by {
                if yy * w <= i < yy * w + w {
                    let k = i - yy * w;
                    assert(self.pixels@[yy * w + k] == pixels@[k]);
                }
            }
            assert(self.pixels@ =~= spec_write_row(old(self).pixels@, w, yy, pixels@));
        }
    }

    /// Encodes the image as a 24-bit bottom-up bitmap file.
    pub fn write_bmp(&self) -> (out: OutputStream)
        requires
            self.wf(),
        ensures
            out.bytes@ == spec_bmp(*self),
    {
        let mut out = OutputStream::new();
        let row_padding: u32 = (4 - self.width % 4) % 4;
        proof {
            assert((self.width * 3 + row_padding) * self.height < 0x4000_0000) by (nonlinear_arith)
                requires
                    0 < self.width <= 16384,
                    0 < self.height <= 16384,
                    row_padding <= 3,
            ;
        }
        let image_size: u32 = (self.width * 3 + row_padding) * self.height;
        let file_size: u32 = 54 + image_size;

        let mut padding: Vec<u8> = Vec::new();
        let mut p: usize = 0;
        while p < row_padding as usize
            invariant
                p <= row_padding,
                padding@.len() == p,
                forall|k: int| 0 <= k < p ==> (#[trigger] padding@[k]) == 0u8,
            decreases row_padding - p,
        {
            padding.push(0u8);
            p = p + 1;
        }
        proof {
            assert(padding@ =~= spec_pad(self.width as int));
        }

        out.write(&[0x42u8, 0x4du8]);
        out.write_u32_le(file_size);
        out.write_u16_le(0);
        out.write_u16_le(0);
        out.write_u32_le(54);

        out.write_u32_le(40);
        out.write_u32_le(self.width);
        out.write_u32_le(self.height);
        out.write_u16_le(1);
        out.write_u16_le(24);
        out.write_u32_le(0);
        out.write_u32_le(image_size);
        out.write_u32_le(0);
        out.write_u32_le(0);
        out.write_u32_le(0);
        out.write_u32_le(0);
        proof {
            assert(out.bytes@ =~= spec_bmp_header(self.width as int, self.height as int));
        }

        let ghost header = out.bytes@;
        let mut y: u32 = 0;
        while y < self.height
            invariant
                self.wf(),
                y <= self.height,
                padding@ == spec_pad(self.width as int),
                out.bytes@ == header + spec_rows(
                    self.pixels@,
                    self.width as int,
                    self.height as int,
                    y as int,
                ),
            decreases self.height - y,
        {
            let src_y: u32 = self.height - 1 - y;
            let ghost row_start = out.bytes@;
            let mut x: u32 = 0;
            while x < self.width
                invariant
                    self.wf(),
                    src_y == self.height - 1 - y,
                    y < self.height,
                    x <= self.width,
                    out.bytes@ == row_start + spec_row_bytes(
                        self.pixels@,
                        self.width as int,
                        src_y as int,
                        x as int,
                    ),
                decreases self.width - x,
            {
                let c = self.pixel(x, src_y);
                let bb = channel_byte(c.b);
                let gb = channel_byte(c.g);
                let rb = channel_byte(c.r);
                let ghost before = out.bytes@;
                out.write(&[bb, gb, rb]);
                proof {
                    assert(out.bytes@ =~= before + spec_px_bytes(
                        self.pixels@[src_y as int * self.width as int + x as int],
                    ));
                    assert(out.bytes@ =~= row_start + spec_row_bytes(
                        self.pixels@,
                        self.width as int,
                        src_y as int,
                        x as int + 1,
                    ));
                }
                x = x + 1;
            }
            let ghost before_pad = out.bytes@;
            out.write(padding.as_slice());
            proof {
                assert(out.bytes@ =~= header + spec_rows(
                    self.pixels@,
                    self.width as int,
                    self.height as int,
                    y as int + 1,
                ));
            }
            y = y + 1;
        }
        proof {
            assert(out.bytes@ == spec_bmp(*self));
        }
        out
    }
}

/// Parallelism cannot change a finished image: writes of complete
/// rows to two different rows commute, so filling the buffer row by
/// row yields the same pixels in whatever order — or on whatever
/// worker — the rows are produced.
pub proof fn lemma_row_writes_commute(
    pixels: Seq<Color>,
    w: int,
    h: int,
    y1: int,
    y2: int,
    r1: Seq<Color>,
    r2: Seq<Color>,
)
    requires
        0 < w,
        0 <= y1 < h,
        0 <= y2 < h,
        y1 != y2,
        pixels.len() == w * h,
        r1.len() == w,
        r2.len() == w,
    ensures
        spec_write_row(spec_write_row(pixels, w, y1, r1), w, y2, r2) == spec_write_row(
            spec_write_row(pixels, w, y2, r2),
            w,
            y1,
            r1,
        ),
{
    let a = spec_write_row(spec_write_row(pixels, w, y1, r1), w, y2, r2);
    let b = spec_write_row(spec_write_row(pixels, w, y2, r2), w, y1, r1);
    assert forall|i: int| 0 <= i < pixels.len() implies a[i] == b[i] by {
        assert(!(y1 * w <= i < y1 * w + w && y2 * w <= i < y2 * w + w)) by (nonlinear_arith)
            requires
                y1 != y2,
                0 < w,
        ;
    }
    assert(a =~= b);
}

/// Row-major grid indices stay inside the flat pixel vector, which
/// itself stays small.
proof fn lemma_grid_index(w: int, h: int, x: int, y: int)
    requires
        0 <= x < w,
        0 <= y < h,
        w <= 16384,
        h <= 16384,
    ensures
        0 <= y * w + x < w * h,
        y * w + x < h * w,
        w * h <= 0x1000_0000,
        h * w <= 0x1000_0000,
{
    assert(y * w + x < w * h && y * w + x < h * w && y * w + x >= 0 && w * h <= 0x1000_0000
        && h * w <= 0x1000_0000) by (nonlinear_arith)
        requires
            0 <= x < w,
            0 <= y < h,
            w <= 16384,
            h <= 16384,
    ;
}

} // verus!
