//! The scalar type of the renderer: a signed fixed-point number with
//! sixteen fractional bits, stored as an `i128` count of 1/65536 units.
//!
//! All operations truncate toward zero, and each one states its exact
//! integer result. Magnitude preconditions keep every intermediate far
//! below the `i128` range; the geometry modules discharge them from the
//! bounds they place on scene coordinates.

use vstd::prelude::*;

verus! {

use vstd::math::abs;

/// Number of raw units in 1.0.
pub const SCALE: i128 = 65536;

/// Largest magnitude accepted by `fmul` operands.
pub const MUL_LIMIT: i128 = 0x4000_0000_0000_0000;

/// Truncating division of `p` by positive `d` (rounds toward zero).
pub open spec fn sdiv(p: int, d: int) -> int {
    if p >= 0 {
        p / d
    } else {
        -((-p) / d)
    }
}

/// Exact value of the fixed-point product of raw values `a` and `b`.
pub open spec fn spec_fmul(a: int, b: int) -> int {
    sdiv(a * b, SCALE as int)
}

/// Exact value of the fixed-point quotient of raw values `a` and `b`.
pub open spec fn spec_fdiv(a: int, b: int) -> int {
    if b >= 0 {
        sdiv(a * SCALE, b)
    } else {
        sdiv(-(a * SCALE), -b)
    }
}

/// Largest raw difference at which two scalars still count as close:
/// 16/65536, the analogue of a small floating tolerance.
pub const CLOSE_TOLERANCE: i128 = 16;

/// Approximate equality, used by the tests: values are "close" when
/// they differ by at most a few raw quantization steps per component.
pub trait CloseEq {
    /// When the pair may be compared (keeps differences in range).
    spec fn close_wf(&self, rhs: &Self) -> bool;

    /// What "close" means for the implementing type.
    spec fn close_spec(&self, rhs: &Self) -> bool;

    fn close_eq(&self, rhs: &Self) -> (r: bool)
        requires
            self.close_wf(rhs),
        ensures
            r == self.close_spec(rhs),
    ;

    fn close_ne(&self, rhs: &Self) -> (r: bool)
        requires
            self.close_wf(rhs),
        ensures
            r == !self.close_spec(rhs),
    ;
}

/// A fixed-point scalar: `raw` counts 1/65536 units.
#[derive(Clone, Copy, Debug, PartialEq, Eq, Structural)]
pub struct Fx {
    pub raw: i128,
}

impl Fx {
    /// The scalar 0.
    pub fn zero() -> (r: Fx)
        ensures
            r.raw == 0,
    {
        Fx { raw: 0 }
    }

    /// The scalar 1.
    pub fn one() -> (r: Fx)
        ensures
            r.raw == SCALE,
    {
        Fx { raw: SCALE }
    }

    /// The whole number `i`, exactly.
    pub fn from_int(i: i64) -> (r: Fx)
        ensures
            r.raw == i * SCALE,
    {
        Fx { raw: (i as i128) * SCALE }
    }

    /// The fraction `num / den`, truncated toward zero.
    pub fn from_ratio(num: i64, den: i64) -> (r: Fx)
        requires
            den != 0,
            -0x4000_0000_0000 <= num <= 0x4000_0000_0000,
        ensures
            r.raw == spec_fdiv(num * SCALE, den * SCALE),
    {
        Fx { raw: (num as i128) * SCALE }.fdiv(Fx { raw: (den as i128) * SCALE })
    }

    /// Sum; exact.
    pub fn fadd(self, rhs: Fx) -> (r: Fx)
        requires
            self.raw + rhs.raw <= i128::MAX,
            self.raw + rhs.raw >= i128::MIN,
        ensures
            r.raw == self.raw + rhs.raw,
    {
        Fx { raw: self.raw + rhs.raw }
    }

    /// Difference; exact.
    pub fn fsub(self, rhs: Fx) -> (r: Fx)
        requires
            self.raw - rhs.raw <= i128::MAX,
            self.raw - rhs.raw >= i128::MIN,
        ensures
            r.raw == self.raw - rhs.raw,
    {
        Fx { raw: self.raw - rhs.raw }
    }

    /// Negation; exact.
    pub fn fneg(self) -> (r: Fx)
        requires
            self.raw > i128::MIN,
        ensures
            r.raw == -self.raw,
    {
        Fx { raw: -self.raw }
    }

    /// Magnitude; exact.
    pub fn fabs(self) -> (r: Fx)
        requires
            self.raw > i128::MIN,
        ensures
            r.raw == abs(self.raw as int),
    {
        if self.raw < 0 {
            Fx { raw: -self.raw }
        } else {
            self
        }
    }

    /// Fixed-point product, truncated toward zero.
    pub fn fmul(self, rhs: Fx) -> (r: Fx)
        requires
            -MUL_LIMIT <= self.raw <= MUL_LIMIT,
            -MUL_LIMIT <= rhs.raw <= MUL_LIMIT,
        ensures
            r.raw == spec_fmul(self.raw as int, rhs.raw as int),
    {
        let neg: bool = (self.raw < 0) != (rhs.raw < 0);
        let ma: u128 = if self.raw < 0 {
            (-self.raw) as u128
        } else {
            self.raw as u128
        };
        let mb: u128 = if rhs.raw < 0 {
            (-rhs.raw) as u128
        } else {
            rhs.raw as u128
        };
        proof {
            assert(ma == abs(self.raw as int));
            assert(mb == abs(rhs.raw as int));
            assert(ma * mb <= MUL_LIMIT * MUL_LIMIT) by (nonlinear_arith)
                requires
                    ma <= MUL_LIMIT,
                    mb <= MUL_LIMIT,
            ;
            lemma_abs_product(self.raw as int, rhs.raw as int);
        }
        let q: u128 = (ma * mb) / 65536;
        proof {
            assert(q <= ma * mb) by {
                vstd::arithmetic::div_mod::lemma_div_is_ordered_by_denominator(
                    (ma * mb) as int,
                    1,
                    65536,
                );
            }
        }
        let rq: i128 = q as i128;
        if neg {
            proof {
                assert(self.raw * rhs.raw <= 0) by (nonlinear_arith)
                    requires
                        (self.raw < 0) != (rhs.raw < 0),
                ;
            }
            Fx { raw: -rq }
        } else {
            proof {
                assert(self.raw * rhs.raw >= 0) by (nonlinear_arith)
                    requires
                        (self.raw < 0) == (rhs.raw < 0),
                ;
            }
            Fx { raw: rq }
        }
    }
}

impl Fx {
    /// Fixed-point quotient, truncated toward zero.
    pub fn fdiv(self, rhs: Fx) -> (r: Fx)
        requires
            rhs.raw != 0,
            -MUL_LIMIT <= self.raw <= MUL_LIMIT,
            rhs.raw > i128::MIN,
        ensures
            r.raw == spec_fdiv(self.raw as int, rhs.raw as int),
    {
        let neg: bool = (self.raw < 0) != (rhs.raw < 0);
        let ma: u128 = if self.raw < 0 {
            (-self.raw) as u128
        } else {
            self.raw as u128
        };
        let mb: u128 = if rhs.raw < 0 {
            (-rhs.raw) as u128
        } else {
            rhs.raw as u128
        };
        proof {
            assert(ma == abs(self.raw as int));
            assert(mb == abs(rhs.raw as int));
            assert(ma * 65536 <= MUL_LIMIT * 65536) by (nonlinear_arith)
                requires
                    ma <= MUL_LIMIT,
            ;
        }
        let q: u128 = (ma * 65536) / mb;
        proof {
            lemma_trunc_div_magnitudes(self.raw as int, rhs.raw as int, q as int);
            assert(q <= ma * 65536) by {
                vstd::arithmetic::div_mod::lemma_div_is_ordered_by_denominator(
                    (ma * 65536) as int,
                    1,
                    mb as int,
                );
            }
        }
        let rq: i128 = q as i128;
        if neg {
            Fx { raw: -rq }
        } else {
            Fx { raw: rq }
        }
    }
}

/// Relates the magnitude form of a truncating quotient to `spec_fdiv`.
proof fn lemma_trunc_div_magnitudes(a: int, b: int, q: int)
    requires
        b != 0,
        q == (abs(a) * 65536) / abs(b),
    ensures
        ((a < 0) != (b < 0)) ==> spec_fdiv(a, b) == -q,
        ((a < 0) == (b < 0)) ==> spec_fdiv(a, b) == q,
{
    if a >= 0 && b > 0 {
        assert(a * SCALE == abs(a) * 65536);
    } else if a < 0 && b > 0 {
        assert(-(a * SCALE) == abs(a) * 65536) by (nonlinear_arith)
            requires
                a < 0,
        ;
        assert(spec_fdiv(a, b) == sdiv(a * SCALE, b));
    } else if a >= 0 && b < 0 {
        assert(-(a * SCALE) <= 0) by (nonlinear_arith)
            requires
                a >= 0,
        ;
        assert(spec_fdiv(a, b) == sdiv(-(a * SCALE), -b));
        assert(a * SCALE == abs(a) * 65536);
    } else {
        assert(-(a * SCALE) == abs(a) * 65536) by (nonlinear_arith)
            requires
                a < 0,
        ;
        assert(spec_fdiv(a, b) == sdiv(-(a * SCALE), -b));
    }
}

impl CloseEq for Fx {
    open spec fn close_wf(&self, rhs: &Fx) -> bool {
        &&& -0x1_0000_0000_0000_0000_0000_0000 <= self.raw <= 0x1_0000_0000_0000_0000_0000_0000
        &&& -0x1_0000_0000_0000_0000_0000_0000 <= rhs.raw <= 0x1_0000_0000_0000_0000_0000_0000
    }

    /// Close when the raw difference is within `CLOSE_TOLERANCE`.
    open spec fn close_spec(&self, rhs: &Fx) -> bool {
        abs(self.raw - rhs.raw) <= CLOSE_TOLERANCE
    }

    fn close_eq(&self, rhs: &Fx) -> (r: bool) {
        let diff: i128 = self.raw - rhs.raw;
        -CLOSE_TOLERANCE <= diff && diff <= CLOSE_TOLERANCE
    }

    fn close_ne(&self, rhs: &Fx) -> (r: bool) {
        !self.close_eq(rhs)
    }
}

/// The magnitude of a product is the product of the magnitudes.
pub proof fn lemma_abs_product(a: int, b: int)
    ensures
        abs(a * b) == abs(a) * abs(b),
{
    assert(abs(a * b) == abs(a) * abs(b)) by (nonlinear_arith);
}

/// The integer square root: the largest `r` with `r * r <= y`.
pub open spec fn spec_isqrt(y: nat) -> nat
    decreases y,
{
    if y == 0 {
        0
    } else {
        let p = spec_isqrt((y - 1) as nat);
        if (p + 1) * (p + 1) <= y {
            p + 1
        } else {
            p
        }
    }
}

/// `spec_isqrt` brackets its argument between consecutive squares.
pub proof fn lemma_isqrt_brackets(y: nat)
    ensures
        spec_isqrt(y) * spec_isqrt(y) <= y,
        y < (spec_isqrt(y) + 1) * (spec_isqrt(y) + 1),
    decreases y,
{
    if y > 0 {
        lemma_isqrt_brackets((y - 1) as nat);
        let p = spec_isqrt((y - 1) as nat);
        if (p + 1) * (p + 1) <= y {
            assert(spec_isqrt(y) == p + 1);
            assert(y < (p + 2) * (p + 2)) by (nonlinear_arith)
                requires
                    y - 1 < (p + 1) * (p + 1),
            ;
            assert(spec_isqrt(y) * spec_isqrt(y) <= y);
            assert(y < (spec_isqrt(y) + 1) * (spec_isqrt(y) + 1));
        } else {
            assert(spec_isqrt(y) == p);
            assert(p * p <= y - 1);
            assert(spec_isqrt(y) * spec_isqrt(y) <= y);
            assert(y < (spec_isqrt(y) + 1) * (spec_isqrt(y) + 1));
        }
    } else {
        assert(y == 0);
        assert(spec_isqrt(y) == 0);
        assert(spec_isqrt(y) * spec_isqrt(y) <= y);
        assert(y < (spec_isqrt(y) + 1) * (spec_isqrt(y) + 1)) by (nonlinear_arith)
            requires
                y == 0,
                spec_isqrt(y) == 0,
        ;
    }
}

/// Any value bracketed between consecutive squares is the integer square root.
pub proof fn lemma_isqrt_unique(y: nat, r: nat)
    requires
        r * r <= y,
        y < (r + 1) * (r + 1),
    ensures
        r == spec_isqrt(y),
{
    lemma_isqrt_brackets(y);
    let s = spec_isqrt(y);
    if r < s {
        assert((r + 1) * (r + 1) <= s * s) by (nonlinear_arith)
            requires
                r + 1 <= s,
        ;
    }
    if s < r {
        assert((s + 1) * (s + 1) <= r * r) by (nonlinear_arith)
            requires
                s + 1 <= r,
        ;
    }
}

impl Fx {
    /// Fixed-point square root of a non-negative scalar, truncated.
    pub fn fsqrt(self) -> (r: Fx)
        requires
            0 <= self.raw <= 0x1000_0000_0000_0000_0000_0000,
        ensures
            r.raw == spec_isqrt((self.raw * SCALE) as nat),
            0 <= r.raw,
            r.raw * r.raw <= self.raw * SCALE,
    {
        let y: u128 = (self.raw as u128) * 65536;
        let mut lo: u128 = 0;
        let mut hi: u128 = 0x4000_0000_0000_0000;
        proof {
            assert(hi * hi > y) by (nonlinear_arith)
                requires
                    hi == 0x4000_0000_0000_0000u128,
                    y <= 0x1000_0000_0000_0000_0000_0000u128 * 65536,
            ;
        }
        while lo + 1 < hi
            invariant
                lo < hi <= 0x4000_0000_0000_0000,
                lo * lo <= y,
                y < hi * hi,
            decreases hi - lo,
        {
            let mid: u128 = lo + (hi - lo) / 2;
            proof {
                assert(mid < hi);
                assert(mid * mid <= 0x4000_0000_0000_0000u128 * 0x4000_0000_0000_0000u128)
                    by (nonlinear_arith)
                    requires
                        mid <= 0x4000_0000_0000_0000u128,
                ;
            }
            if mid * mid <= y {
                lo = mid;
            } else {
                hi = mid;
            }
        }
        proof {
            assert(y < (lo + 1) * (lo + 1));
            lemma_isqrt_unique(y as nat, lo as nat);
        }
        Fx { raw: lo as i128 }
    }
}

/// Truncating division by a positive number keeps the magnitude's quotient.
pub proof fn lemma_sdiv_abs(p: int, d: int)
    requires
        d > 0,
    ensures
        abs(sdiv(p, d)) as int == abs(p) as int / d,
        sdiv(p, d) <= abs(p) as int / d,
        -(abs(p) as int / d) <= sdiv(p, d),
{
    if p >= 0 {
        vstd::arithmetic::div_mod::lemma_div_is_ordered(0, p, d);
    } else {
        vstd::arithmetic::div_mod::lemma_div_is_ordered(0, -p, d);
    }
}

/// Bound on a fixed-point product from bounds on its operands.
pub proof fn lemma_fmul_bound(a: int, b: int, m: int, n: int)
    requires
        abs(a) as int <= m,
        abs(b) as int <= n,
    ensures
        abs(spec_fmul(a, b)) as int <= (m * n) / (SCALE as int),
        spec_fmul(a, b) <= (m * n) / (SCALE as int),
        -((m * n) / (SCALE as int)) <= spec_fmul(a, b),
{
    lemma_abs_product(a, b);
    assert(abs(a) as int * abs(b) as int <= m * n) by (nonlinear_arith)
        requires
            abs(a) as int <= m,
            abs(b) as int <= n,
            abs(a) as int >= 0,
            abs(b) as int >= 0,
    ;
    lemma_sdiv_abs(a * b, SCALE as int);
    vstd::arithmetic::div_mod::lemma_div_is_ordered(abs(a * b) as int, m * n, SCALE as int);
}

/// Bound on a fixed-point quotient from a bound on the dividend; any
/// divisor of magnitude at least one whole unit can only shrink it.
pub proof fn lemma_fdiv_bound(a: int, b: int, m: int)
    requires
        abs(a) as int <= m,
        abs(b) as int >= 1,
    ensures
        abs(spec_fdiv(a, b)) as int <= m * SCALE,
        spec_fdiv(a, b) <= m * SCALE,
        -(m * SCALE) <= spec_fdiv(a, b),
{
    let s = SCALE as int;
    let aa: int = abs(a) as int;
    if b >= 0 {
        lemma_sdiv_abs(a * s, b);
        assert(abs(a * s) as int == aa * s) by {
            lemma_abs_product(a, s);
        }
        vstd::arithmetic::div_mod::lemma_div_is_ordered_by_denominator(aa * s, 1, b);
        assert(aa * s <= m * s) by (nonlinear_arith)
            requires
                aa <= m,
                s > 0,
        ;
        vstd::arithmetic::div_mod::lemma_div_is_ordered(aa * s, m * s, 1);
    } else {
        lemma_sdiv_abs(-(a * s), -b);
        assert(abs(-(a * s)) as int == aa * s) by {
            lemma_abs_product(a, s);
        }
        vstd::arithmetic::div_mod::lemma_div_is_ordered_by_denominator(aa * s, 1, -b);
        assert(aa * s <= m * s) by (nonlinear_arith)
            requires
                aa <= m,
                s > 0,
        ;
        vstd::arithmetic::div_mod::lemma_div_is_ordered(aa * s, m * s, 1);
    }
}

} // verus!
