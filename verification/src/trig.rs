//! Periodic and power functions on the fixed-point scalar.
//!
//! Angles are measured in turns (1.0 is a full revolution), so the
//! azimuth of a unit-square sample needs no factor of two pi. The sine
//! uses a rational half-wave approximation that is exact at every
//! quarter turn and always stays inside the unit interval. Fractional
//! powers of unit-interval values and their inverse (the n-th root)
//! serve the cosine-power hemisphere mapping.

use vstd::prelude::*;

verus! {

use crate::fixed::{Fx, SCALE, spec_fmul};

/// Largest angle magnitude (in raw units) accepted by `sin_turns`.
pub const TURN_LIMIT: i128 = 0x4000_0000_0000_0000;

/// The half-wave approximation on `0 <= u <= 32768` raw units of a
/// turn: `u (32768 - u) 2^20 / (5 * 2^30 - 4 u (32768 - u))`.
pub open spec fn spec_halfwave(u: int) -> int {
    (u * (32768 - u) * 1048576) / (5368709120 - 4 * u * (32768 - u))
}

/// Sine of an angle in turns, on the reduced angle `a % 65536`.
pub open spec fn spec_sin_turns(a: int) -> int {
    let u = a % 65536;
    if u < 32768 {
        spec_halfwave(u)
    } else {
        -spec_halfwave(u - 32768)
    }
}

/// Cosine of an angle in turns: the sine a quarter turn later.
pub open spec fn spec_cos_turns(a: int) -> int {
    spec_sin_turns(a + 16384)
}

/// The half-wave numerator and denominator stay in range and the
/// quotient stays in the unit interval.
proof fn lemma_halfwave_range(u: int)
    requires
        0 <= u <= 32768,
    ensures
        0 <= u * (32768 - u) <= 0x1000_0000,
        0 <= spec_halfwave(u) <= 65536,
{
    assert(0 <= u * (32768 - u) <= 0x1000_0000) by (nonlinear_arith)
        requires
            0 <= u <= 32768,
    ;
    let w = u * (32768 - u);
    assert(w * 1048576 >= 0) by (nonlinear_arith)
        requires
            u * (32768 - u) >= 0,
            w == u * (32768 - u),
    ;
    let num = w * 1048576;
    let den = 5368709120 - 4 * w;
    assert(den >= 0x1_0000_0000);
    vstd::arithmetic::div_mod::lemma_div_of0(den);
    vstd::arithmetic::div_mod::lemma_div_is_ordered(0, num, den);
    assert(num / den >= 0);
    assert(4 * u * (32768 - u) == 4 * (u * (32768 - u))) by (nonlinear_arith);
    assert(spec_halfwave(u) == num / den);
    assert(num <= 65536 * den) by (nonlinear_arith)
        requires
            0 <= w <= 0x1000_0000,
            num == w * 1048576,
            den == 5368709120 - 4 * w,
    ;
    assert(num / den <= (65536 * den) / den) by {
        vstd::arithmetic::div_mod::lemma_div_is_ordered(num, 65536 * den, den);
    }
    assert((65536 * den) / den == 65536) by {
        vstd::arithmetic::div_mod::lemma_div_multiples_vanish(65536, den);
    }
}

/// The half-wave approximation on one half turn; exact per
/// `spec_halfwave`.
fn halfwave(u: u128) -> (r: u128)
    requires
        u <= 32768,
    ensures
        r == spec_halfwave(u as int),
        r <= 65536,
{
    proof {
        lemma_halfwave_range(u as int);
        let ui = u as int;
        assert(4 * ui * (32768 - ui) == 4 * (ui * (32768 - ui))) by (nonlinear_arith);
    }
    let w: u128 = u * (32768 - u);
    (w * 1048576) / (5368709120 - 4 * w)
}

impl Fx {
    /// Sine of `self` turns; exact per `spec_sin_turns`, always in
    /// the unit interval.
    pub fn sin_turns(self) -> (r: Fx)
        requires
            -TURN_LIMIT <= self.raw <= TURN_LIMIT,
        ensures
            r.raw == spec_sin_turns(self.raw as int),
            -SCALE <= r.raw <= SCALE,
    {
        let shifted: u128 = (self.raw + 0x4000_0000_0000_0000) as u128;
        let u: u128 = shifted % 65536;
        proof {
            vstd::arithmetic::div_mod::lemma_mod_multiples_vanish(
                0x4000_0000_0000,
                self.raw as int,
                65536,
            );
            assert(0x4000_0000_0000_0000int == 65536 * 0x4000_0000_0000int);
            assert(u == self.raw as int % 65536);
            if u < 32768 {
                lemma_halfwave_range(u as int);
            } else {
                lemma_halfwave_range(u as int - 32768);
            }
        }
        if u < 32768 {
            Fx { raw: halfwave(u) as i128 }
        } else {
            Fx { raw: -(halfwave(u - 32768) as i128) }
        }
    }

    /// Cosine of `self` turns: the sine a quarter turn later.
    pub fn cos_turns(self) -> (r: Fx)
        requires
            -TURN_LIMIT + 16384 <= self.raw <= TURN_LIMIT - 16384,
        ensures
            r.raw == spec_cos_turns(self.raw as int),
            -SCALE <= r.raw <= SCALE,
    {
        Fx { raw: self.raw + 16384 }.sin_turns()
    }
}

/// `r` raised to the power `n` in fixed point, multiplying from one
/// and truncating each step.
pub open spec fn spec_powfrac(r: int, n: nat) -> int
    decreases n,
{
    if n == 0 {
        SCALE as int
    } else {
        spec_fmul(spec_powfrac(r, (n - 1) as nat), r)
    }
}

/// A fixed-point product of unit-interval values stays in the unit
/// interval, and is monotone in both factors.
pub proof fn lemma_fmul_unit_mono(a1: int, a2: int, b1: int, b2: int)
    requires
        0 <= a1 <= a2 <= 65536,
        0 <= b1 <= b2 <= 65536,
    ensures
        0 <= spec_fmul(a1, b1) <= spec_fmul(a2, b2) <= 65536,
{
    assert(0 <= a1 * b1 <= a2 * b2 <= 65536 * 65536) by (nonlinear_arith)
        requires
            0 <= a1 <= a2 <= 65536,
            0 <= b1 <= b2 <= 65536,
    ;
    vstd::arithmetic::div_mod::lemma_div_is_ordered(0, a1 * b1, 65536);
    vstd::arithmetic::div_mod::lemma_div_is_ordered(a1 * b1, a2 * b2, 65536);
    vstd::arithmetic::div_mod::lemma_div_is_ordered(a2 * b2, 65536int * 65536, 65536);
    assert((65536int * 65536) / 65536 == 65536) by {
        vstd::arithmetic::div_mod::lemma_div_multiples_vanish(65536, 65536);
    }
}

/// Powers of unit-interval values stay in the unit interval and are
/// monotone in the base.
pub proof fn lemma_powfrac_unit_mono(r1: int, r2: int, n: nat)
    requires
        0 <= r1 <= r2 <= 65536,
    ensures
        0 <= spec_powfrac(r1, n) <= spec_powfrac(r2, n) <= 65536,
    decreases n,
{
    if n == 0 {
    } else {
        lemma_powfrac_unit_mono(r1, r2, (n - 1) as nat);
        lemma_fmul_unit_mono(spec_powfrac(r1, (n - 1) as nat), spec_powfrac(r2, (n - 1) as nat), r1, r2);
    }
}

/// The full unit keeps every power at the full unit.
pub proof fn lemma_powfrac_one(n: nat)
    ensures
        spec_powfrac(65536, n) == 65536,
    decreases n,
{
    if n > 0 {
        lemma_powfrac_one((n - 1) as nat);
        assert(spec_fmul(65536, 65536) == 65536) by {
            vstd::arithmetic::div_mod::lemma_div_multiples_vanish(65536, 65536);
        }
    }
}

/// `base` (a unit-interval value) to the power `n`; exact.
pub fn powfrac(base: Fx, n: u32) -> (r: Fx)
    requires
        0 <= base.raw <= SCALE,
    ensures
        r.raw == spec_powfrac(base.raw as int, n as nat),
        0 <= r.raw <= SCALE,
{
    let b: u128 = base.raw as u128;
    let mut p: u128 = 65536;
    let mut i: u32 = 0;
    proof {
        lemma_powfrac_unit_mono(base.raw as int, base.raw as int, 0);
    }
    while i < n
        invariant
            i <= n,
            b == base.raw,
            0 <= base.raw <= 65536,
            p == spec_powfrac(base.raw as int, i as nat),
            p <= 65536,
        decreases n - i,
    {
        proof {
            lemma_fmul_unit_mono(p as int, p as int, b as int, b as int);
        }
        p = (p * b) / 65536;
        i = i + 1;
    }
    Fx { raw: p as i128 }
}

/// The largest candidate at most `r` whose `n`-th fixed-point power
/// does not exceed `x` (zero when none qualifies).
pub open spec fn spec_root_below(x: int, n: nat, r: nat) -> nat
    decreases r,
{
    if r == 0 {
        0
    } else if spec_powfrac(r as int, n) <= x {
        r
    } else {
        spec_root_below(x, n, (r - 1) as nat)
    }
}

/// The `n`-th root of a unit-interval value in fixed point: the
/// largest unit-interval scalar whose `n`-th truncated power does
/// not exceed `x`.
pub open spec fn spec_rootfrac(x: int, n: nat) -> int {
    spec_root_below(x, n, 65536) as int
}

/// `spec_root_below` brackets its argument: its power fits under
/// `x`, and the next candidate's power (when one is left) does not.
proof fn lemma_root_below_bracket(x: int, n: nat, r: nat)
    requires
        x >= 0,
        n >= 1,
    ensures
        spec_root_below(x, n, r) <= r,
        spec_powfrac(spec_root_below(x, n, r) as int, n) <= x,
        spec_root_below(x, n, r) < r ==> x < spec_powfrac(spec_root_below(x, n, r) as int + 1, n),
    decreases r,
{
    if r == 0 {
        lemma_powfrac_zero(n);
    } else if spec_powfrac(r as int, n) <= x {
    } else {
        lemma_root_below_bracket(x, n, (r - 1) as nat);
    }
}

/// Any unit-range value bracketed by consecutive powers is the root.
proof fn lemma_rootfrac_unique(x: int, n: nat, r: int)
    requires
        0 <= x < SCALE,
        n >= 1,
        0 <= r <= 65535,
        spec_powfrac(r, n) <= x,
        x < spec_powfrac(r + 1, n),
    ensures
        r == spec_rootfrac(x, n),
{
    lemma_root_below_bracket(x, n, 65536);
    let s = spec_root_below(x, n, 65536) as int;
    lemma_powfrac_one(n);
    assert(spec_root_below(x, n, 65536) < 65536);
    if r < s {
        lemma_powfrac_unit_mono(r + 1, s, n);
    }
    if s < r {
        lemma_powfrac_unit_mono(s + 1, r, n);
    }
}

/// The `n`-th root of a unit-interval value: the largest unit-interval
/// scalar whose `n`-th fixed-point power does not exceed `x`; exact
/// per `spec_rootfrac`.
pub fn root_frac(x: Fx, n: u32) -> (r: Fx)
    requires
        0 <= x.raw <= SCALE,
        n >= 1,
    ensures
        r.raw == spec_rootfrac(x.raw as int, n as nat),
        0 <= r.raw <= SCALE,
        spec_powfrac(r.raw as int, n as nat) <= x.raw,
        r.raw < SCALE ==> x.raw < spec_powfrac(r.raw as int + 1, n as nat),
        x.raw == SCALE ==> r.raw == SCALE,
{
    if x.raw == SCALE {
        proof {
            lemma_powfrac_one(n as nat);
            assert(spec_root_below(SCALE as int, n as nat, 65536) == 65536);
        }
        return Fx { raw: SCALE };
    }
    let mut lo: u128 = 0;
    let mut hi: u128 = 65536;
    proof {
        lemma_powfrac_unit_mono(0, 0, n as nat);
        lemma_powfrac_zero(n as nat);
        lemma_powfrac_one(n as nat);
    }
    while lo + 1 < hi
        invariant
            lo < hi <= 65536,
            n >= 1,
            0 <= x.raw < 65536,
            spec_powfrac(lo as int, n as nat) <= x.raw,
            x.raw < spec_powfrac(hi as int, n as nat),
        decreases hi - lo,
    {
        let mid: u128 = lo + (hi - lo) / 2;
        let p = powfrac(Fx { raw: mid as i128 }, n);
        if p.raw <= x.raw {
            lo = mid;
        } else {
            hi = mid;
        }
    }
    proof {
        assert(hi == lo + 1);
        lemma_rootfrac_unique(x.raw as int, n as nat, lo as int);
    }
    Fx { raw: lo as i128 }
}

/// A positive power of zero is zero.
pub proof fn lemma_powfrac_zero(n: nat)
    requires
        n >= 1,
    ensures
        spec_powfrac(0, n) == 0,
    decreases n,
{
    if n > 1 {
        lemma_powfrac_zero((n - 1) as nat);
    }
    assert(spec_fmul(spec_powfrac(0, (n - 1) as nat), 0) == 0) by {
        assert(spec_powfrac(0, (n - 1) as nat) * 0 == 0);
    }
}

} // verus!
