//! RGBA colors over the fixed-point scalar, with the accumulation,
//! attenuation and byte-packing operations the renderer needs.

use vstd::prelude::*;

verus! {

use vstd::math::abs;
use crate::fixed::{Fx, SCALE, MUL_LIMIT, spec_fmul, sdiv, lemma_fmul_bound};

/// Largest channel magnitude accepted by the channelwise sum.
pub const COLOR_ADD_LIMIT: i128 = 0x10_0000_0000_0000_0000_0000_0000;

/// An RGBA color; channel value 65536 is full intensity.
#[derive(Clone, Copy, Debug, PartialEq, Eq, Structural)]
pub struct Color {
    pub r: Fx,
    pub g: Fx,
    pub b: Fx,
    pub a: Fx,
}

/// One output byte of a channel: clamped to the unit range, then
/// scaled to 0..=255, truncated.
pub open spec fn spec_channel_byte(c: int) -> int {
    let cl = if c < 0 {
        0
    } else if c > SCALE {
        SCALE as int
    } else {
        c
    };
    (cl * 255) / (SCALE as int)
}

/// The packed pixel: red in the low byte, then green, blue, alpha.
pub open spec fn spec_rgba32(c: Color) -> int {
    spec_channel_byte(c.r.raw as int) + 256 * spec_channel_byte(c.g.raw as int) + 65536
        * spec_channel_byte(c.b.raw as int) + 16777216 * spec_channel_byte(c.a.raw as int)
}

/// Opaque white as a value.
pub open spec fn spec_white() -> Color {
    Color {
        r: Fx { raw: SCALE },
        g: Fx { raw: SCALE },
        b: Fx { raw: SCALE },
        a: Fx { raw: SCALE },
    }
}

/// Exact value of the channelwise sum of two colors.
pub open spec fn spec_color_add(a: Color, b: Color) -> Color {
    Color {
        r: Fx { raw: (a.r.raw + b.r.raw) as i128 },
        g: Fx { raw: (a.g.raw + b.g.raw) as i128 },
        b: Fx { raw: (a.b.raw + b.b.raw) as i128 },
        a: Fx { raw: (a.a.raw + b.a.raw) as i128 },
    }
}

/// Exact value of the channelwise product of two colors.
pub open spec fn spec_color_mul(a: Color, b: Color) -> Color {
    Color {
        r: Fx { raw: spec_fmul(a.r.raw as int, b.r.raw as int) as i128 },
        g: Fx { raw: spec_fmul(a.g.raw as int, b.g.raw as int) as i128 },
        b: Fx { raw: spec_fmul(a.b.raw as int, b.b.raw as int) as i128 },
        a: Fx { raw: spec_fmul(a.a.raw as int, b.a.raw as int) as i128 },
    }
}

impl Color {
    /// All channel magnitudes are at most `m`.
    pub open spec fn bounded(self, m: int) -> bool {
        abs(self.r.raw as int) <= m && abs(self.g.raw as int) <= m && abs(self.b.raw as int)
            <= m && abs(self.a.raw as int) <= m
    }

    /// Every channel lies in the unit interval.
    pub open spec fn unit(self) -> bool {
        &&& 0 <= self.r.raw <= SCALE
        &&& 0 <= self.g.raw <= SCALE
        &&& 0 <= self.b.raw <= SCALE
        &&& 0 <= self.a.raw <= SCALE
    }

    /// Opaque black.
    pub fn black() -> (c: Color)
        ensures
            c.r.raw == 0 && c.g.raw == 0 && c.b.raw == 0 && c.a.raw == SCALE,
            c.unit(),
    {
        Color { r: Fx::zero(), g: Fx::zero(), b: Fx::zero(), a: Fx::one() }
    }

    /// Opaque white.
    pub fn white() -> (c: Color)
        ensures
            c.r.raw == SCALE && c.g.raw == SCALE && c.b.raw == SCALE && c.a.raw == SCALE,
            c == spec_white(),
            c.unit(),
    {
        Color { r: Fx::one(), g: Fx::one(), b: Fx::one(), a: Fx::one() }
    }

    /// Channelwise sum; exact.
    pub fn plus(self, rhs: Color) -> (c: Color)
        requires
            self.bounded(COLOR_ADD_LIMIT as int),
            rhs.bounded(COLOR_ADD_LIMIT as int),
        ensures
            c.r.raw == self.r.raw + rhs.r.raw,
            c.g.raw == self.g.raw + rhs.g.raw,
            c.b.raw == self.b.raw + rhs.b.raw,
            c.a.raw == self.a.raw + rhs.a.raw,
            c == spec_color_add(self, rhs),
    {
        Color {
            r: self.r.fadd(rhs.r),
            g: self.g.fadd(rhs.g),
            b: self.b.fadd(rhs.b),
            a: self.a.fadd(rhs.a),
        }
    }

    /// Channelwise product (attenuation); exact, and unit colors stay
    /// unit.
    pub fn times(self, rhs: Color) -> (c: Color)
        requires
            self.bounded(MUL_LIMIT as int),
            rhs.bounded(MUL_LIMIT as int),
        ensures
            c == spec_color_mul(self, rhs),
            self.unit() && rhs.unit() ==> c.unit(),
    {
        proof {
            lemma_fmul_bound(self.r.raw as int, rhs.r.raw as int, MUL_LIMIT as int, MUL_LIMIT as int);
            lemma_fmul_bound(self.g.raw as int, rhs.g.raw as int, MUL_LIMIT as int, MUL_LIMIT as int);
            lemma_fmul_bound(self.b.raw as int, rhs.b.raw as int, MUL_LIMIT as int, MUL_LIMIT as int);
            lemma_fmul_bound(self.a.raw as int, rhs.a.raw as int, MUL_LIMIT as int, MUL_LIMIT as int);
            if self.unit() && rhs.unit() {
                lemma_unit_mul(self.r.raw as int, rhs.r.raw as int);
                lemma_unit_mul(self.g.raw as int, rhs.g.raw as int);
                lemma_unit_mul(self.b.raw as int, rhs.b.raw as int);
                lemma_unit_mul(self.a.raw as int, rhs.a.raw as int);
            }
        }
        Color {
            r: self.r.fmul(rhs.r),
            g: self.g.fmul(rhs.g),
            b: self.b.fmul(rhs.b),
            a: self.a.fmul(rhs.a),
        }
    }

    /// Every channel divided by `n`, truncated toward zero; averages
    /// an accumulated sum over its sample count.
    pub fn div_by_count(self, n: usize) -> (c: Color)
        requires
            n >= 1,
            self.bounded(COLOR_ADD_LIMIT as int),
        ensures
            c.r.raw == sdiv(self.r.raw as int, n as int),
            c.g.raw == sdiv(self.g.raw as int, n as int),
            c.b.raw == sdiv(self.b.raw as int, n as int),
            c.a.raw == sdiv(self.a.raw as int, n as int),
    {
        Color {
            r: div_channel(self.r, n),
            g: div_channel(self.g, n),
            b: div_channel(self.b, n),
            a: div_channel(self.a, n),
        }
    }

    /// The packed 32-bit pixel, low byte red; channels clamp to the
    /// unit range first.
    pub fn to_rgba32(&self) -> (out: u32)
        ensures
            out == spec_rgba32(*self),
    {
        let r = channel_byte(self.r) as u32;
        let g = channel_byte(self.g) as u32;
        let b = channel_byte(self.b) as u32;
        let a = channel_byte(self.a) as u32;
        r + 256 * g + 65536 * b + 16777216 * a
    }
}

/// One channel truncated-divided by a positive count.
fn div_channel(c: Fx, n: usize) -> (r: Fx)
    requires
        n >= 1,
        -COLOR_ADD_LIMIT <= c.raw <= COLOR_ADD_LIMIT,
    ensures
        r.raw == sdiv(c.raw as int, n as int),
{
    if c.raw >= 0 {
        let q: u128 = (c.raw as u128) / (n as u128);
        proof {
            vstd::arithmetic::div_mod::lemma_div_is_ordered_by_denominator(c.raw as int, 1, n as int);
        }
        Fx { raw: q as i128 }
    } else {
        let q: u128 = ((-c.raw) as u128) / (n as u128);
        proof {
            vstd::arithmetic::div_mod::lemma_div_is_ordered_by_denominator(-(c.raw as int), 1, n as int);
        }
        Fx { raw: -(q as i128) }
    }
}

/// One output byte of a channel: clamp, scale to 255, truncate.
pub fn channel_byte(c: Fx) -> (out: u8)
    ensures
        out == spec_channel_byte(c.raw as int),
        out <= 255,
{
    let cl: i128 = if c.raw < 0 {
        0
    } else if c.raw > SCALE {
        SCALE
    } else {
        c.raw
    };
    let v: i128 = (cl * 255) / 65536;
    proof {
        vstd::arithmetic::div_mod::lemma_div_is_ordered(cl * 255, 65536int * 255, 65536);
        vstd::arithmetic::div_mod::lemma_div_is_ordered(0, cl * 255, 65536);
        assert(cl * 255 >= 0) by (nonlinear_arith)
            requires
                cl >= 0,
        ;
    }
    v as u8
}

/// Unit-interval channels stay in the unit interval under `spec_fmul`.
pub proof fn lemma_unit_mul(a: int, b: int)
    requires
        0 <= a <= SCALE,
        0 <= b <= SCALE,
    ensures
        0 <= spec_fmul(a, b) <= SCALE,
{
    assert(a * b >= 0) by (nonlinear_arith)
        requires
            a >= 0,
            b >= 0,
    ;
    assert(a * b <= 65536 * 65536) by (nonlinear_arith)
        requires
            0 <= a <= 65536,
            0 <= b <= 65536,
    ;
    vstd::arithmetic::div_mod::lemma_div_is_ordered(a * b, 65536int * 65536, 65536);
}

} // verus!
