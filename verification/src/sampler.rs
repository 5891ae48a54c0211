//! Precomputed sample sets for anti-aliasing and material scattering.
//!
//! Each sampler holds several independently shuffled copies of one
//! base point set, so adjacent pixels and successive bounces can draw
//! from different permutations of the same distribution. Every set of
//! one sampler has the same size and the same point multiset.

use vstd::prelude::*;

verus! {

use vstd::math::abs;
use vstd::seq_lib::group_to_multiset_ensures;
use crate::fixed::{Fx, SCALE, spec_fmul, spec_fdiv, spec_isqrt, lemma_fmul_bound};
use crate::trig::{spec_powfrac, spec_rootfrac, spec_sin_turns, spec_cos_turns, root_frac, lemma_fmul_unit_mono};
use crate::vector::{Vector2, Vector3, spec_dot};
use crate::random::{random_below, shuffle_values};

/// How many independently shuffled copies of the base point set each
/// sampler precomputes.
pub const NUM_SAMPLE_SETS: usize = 83;

/// Largest accepted grid resolution per axis: keeps the flat point
/// count at 65536 and every stratification cell at least 256 raw
/// quanta wide, so a jitter always lands strictly inside its own
/// cell.
pub const MAX_SAMPLES_PER_AXIS: usize = 256;

/// Largest accepted cosine-power exponent: the one machine limit is
/// that the root order `e + 1` must not overflow.
pub const MAX_EXPONENT: u32 = 0xFFFF_FFFE;

/// A point of the unit square: both coordinates in `[0, 1]`.
pub open spec fn in_unit_square(p: Vector2) -> bool {
    0 <= p.x.raw <= SCALE && 0 <= p.y.raw <= SCALE
}

/// A hemisphere direction as the sampler stores it: `z` (the cosine
/// to the surface normal) in `[0, 1]`, the other components within
/// one unit.
pub open spec fn hemi_ok(v: Vector3) -> bool {
    &&& 0 <= v.z.raw <= SCALE
    &&& abs(v.x.raw as int) <= SCALE
    &&& abs(v.y.raw as int) <= SCALE
}

/// A point of the unit ball: squared length at most one, components
/// within one unit.
pub open spec fn in_ball(v: Vector3) -> bool {
    &&& spec_dot(v, v) <= SCALE
    &&& v.bounded(SCALE as int)
}

/// Mapping two sequences that hold the same multiset yields two
/// sequences that hold the same multiset: shuffling before or after
/// a pointwise map makes no difference to the points.
pub proof fn lemma_map_values_multiset<A, B>(a: Seq<A>, b: Seq<A>, f: spec_fn(A) -> B)
    requires
        a.to_multiset() == b.to_multiset(),
    ensures
        a.map_values(f).to_multiset() == b.map_values(f).to_multiset(),
    decreases a.len(),
{
    broadcast use group_to_multiset_ensures;

    if a.len() == 0 {
        assert(a.to_multiset().len() == a.len());
        assert(b.to_multiset().len() == b.len());
        assert(b.len() == 0);
        assert(a.map_values(f) =~= b.map_values(f));
    } else {
        let x = a.last();
        assert(a.contains(x));
        assert(b.to_multiset().count(x) > 0);
        assert(b.contains(x));
        let j = choose|j: int| 0 <= j < b.len() && b[j] == x;
        let a1 = a.drop_last();
        let b1 = b.remove(j);
        assert(a1 =~= a.remove(a.len() - 1));
        assert(a1.to_multiset() =~= a.to_multiset().remove(x));
        assert(b1.to_multiset() =~= b.to_multiset().remove(x));
        lemma_map_values_multiset(a1, b1, f);
        // The maps commute with dropping / removing the shared point.
        assert(a1.map_values(f) =~= a.map_values(f).remove(a.len() - 1));
        assert(b1.map_values(f) =~= b.map_values(f).remove(j));
        let fx = f(x);
        assert(a.map_values(f)[a.len() - 1] == fx);
        assert(b.map_values(f)[j] == fx);
        assert(a.map_values(f).remove(a.len() - 1).to_multiset() =~= a.map_values(
            f,
        ).to_multiset().remove(fx));
        assert(b.map_values(f).remove(j).to_multiset() =~= b.map_values(
            f,
        ).to_multiset().remove(fx));
        let ma = a.map_values(f).to_multiset();
        let mb = b.map_values(f).to_multiset();
        assert(ma.remove(fx) == mb.remove(fx));
        assert(ma.count(fx) > 0) by {
            assert(a.map_values(f).contains(fx));
        }
        assert(mb.count(fx) > 0) by {
            assert(b.map_values(f).contains(fx));
        }
        assert forall|u: B| true implies ma.count(u) == mb.count(u) by {
            if u == fx {
                assert(ma.remove(fx).count(fx) == ma.count(fx) - 1);
                assert(mb.remove(fx).count(fx) == mb.count(fx) - 1);
            } else {
                assert(ma.remove(fx).count(u) == ma.count(u));
                assert(mb.remove(fx).count(u) == mb.count(u));
            }
        }
        assert(ma =~= mb);
    }
}

/// If two sequences hold the same multiset, a property of every
/// element of the one holds of every element of the other.
pub proof fn lemma_multiset_pointwise<T>(a: Seq<T>, b: Seq<T>, p: spec_fn(T) -> bool)
    requires
        a.to_multiset() == b.to_multiset(),
        forall|i: int| 0 <= i < a.len() ==> p(#[trigger] a[i]),
    ensures
        forall|i: int| 0 <= i < b.len() ==> p(#[trigger] b[i]),
{
    broadcast use group_to_multiset_ensures;

    assert forall|i: int| 0 <= i < b.len() implies p(#[trigger] b[i]) by {
        let x = b[i];
        assert(b.contains(x));
        assert(b.to_multiset().count(x) > 0);
        assert(a.contains(x));
        let j = choose|j: int| 0 <= j < a.len() && a[j] == x;
        assert(p(a[j]));
    }
}

/// `num_sets` independently shuffled copies of the base point set:
/// every copy holds exactly the base multiset.
fn create_shuffled_samples<T: Copy>(samples: &Vec<T>, num_sets: usize) -> (r: Vec<Vec<T>>)
    requires
        samples@.len() > 0,
        num_sets > 0,
    ensures
        r@.len() == num_sets,
        forall|s: int|
            0 <= s < num_sets ==> (#[trigger] r@[s]@).to_multiset() == samples@.to_multiset()
                && r@[s]@.len() == samples@.len(),
{
    let mut sets: Vec<Vec<T>> = Vec::new();
    let mut i: usize = 0;
    while i < num_sets
        invariant
            i <= num_sets,
            sets@.len() == i,
            samples@.len() > 0,
            forall|s: int|
                0 <= s < i ==> (#[trigger] sets@[s]@).to_multiset() == samples@.to_multiset()
                    && sets@[s]@.len() == samples@.len(),
        decreases num_sets - i,
    {
        let mut copy: Vec<T> = Vec::new();
        let mut k: usize = 0;
        while k < samples.len()
            invariant
                k <= samples@.len(),
                copy@ == samples@.subrange(0, k as int),
            decreases samples@.len() - k,
        {
            copy.push(samples[k]);
            proof {
                assert(copy@ == samples@.subrange(0, k + 1));
            }
            k = k + 1;
        }
        proof {
            assert(copy@ == samples@);
        }
        shuffle_values(&mut copy);
        sets.push(copy);
        i = i + 1;
    }
    sets
}

/// Sample points over the unit square, for pixel anti-aliasing.
#[derive(Clone, Debug)]
pub struct UnitSquareSampler {
    pub samples: Vec<Vec<Vector2>>,
}

impl UnitSquareSampler {
    /// Non-empty sets of equal, non-zero size.
    pub open spec fn wf(self) -> bool {
        &&& self.samples@.len() > 0
        &&& self.samples@[0]@.len() > 0
        &&& forall|s: int|
            0 <= s < self.samples@.len() ==> (#[trigger] self.samples@[s]@.len())
                == self.samples@[0]@.len()
    }

    /// Every stored point lies in the unit square.
    pub open spec fn points_ok(self) -> bool {
        forall|s: int, k: int|
            0 <= s < self.samples@.len() && 0 <= k < self.samples@[s]@.len()
                ==> in_unit_square(#[trigger] self.samples@[s]@[k])
    }

    /// The stored point at `(set_index mod sets, sample_index mod set
    /// size)`.
    pub fn sample(&self, set_index: usize, sample_index: usize) -> (p: Vector2)
        requires
            self.wf(),
        ensures
            p == self.samples@[set_index as int % self.samples@.len() as int]@[sample_index as int
                % self.samples@[set_index as int % self.samples@.len() as int]@.len() as int],
    {
        let si = set_index % self.samples.len();
        let set = &self.samples[si];
        let pi = sample_index % set.len();
        set[pi]
    }

    /// A single centered sample: one set holding `(0.5, 0.5)`.
    pub fn standard_sampler() -> (r: UnitSquareSampler)
        ensures
            r.wf(),
            r.points_ok(),
            r.samples@.len() == 1,
            r.samples@[0]@.len() == 1,
            r.samples@[0]@[0].x.raw == 32768 && r.samples@[0]@[0].y.raw == 32768,
    {
        let mut set: Vec<Vector2> = Vec::new();
        set.push(Vector2 { x: Fx { raw: 32768 }, y: Fx { raw: 32768 } });
        let mut samples: Vec<Vec<Vector2>> = Vec::new();
        samples.push(set);
        UnitSquareSampler { samples }
    }
}

/// The point of the stratified `n` by `n` grid at flat index `k`
/// (row-major: `x = k mod n`, `y = k div n`), each coordinate the
/// cell center `1/(2n) + (coordinate)/n` in truncated fixed point.
pub open spec fn spec_regular_point(n: int, k: int) -> Vector2 {
    let off = spec_fdiv(1 * SCALE, n * 2 * SCALE);
    Vector2 {
        x: Fx { raw: (off + spec_fdiv((k % n) * SCALE, n * SCALE)) as i128 },
        y: Fx { raw: (off + spec_fdiv((k / n) * SCALE, n * SCALE)) as i128 },
    }
}

/// The full row-major base grid of `regular_sampler`.
pub open spec fn spec_regular_base(n: int) -> Seq<Vector2> {
    Seq::new((n * n) as nat, |k: int| spec_regular_point(n, k))
}

/// A point sits inside grid cell `(k mod n, k div n)` of the `n` by
/// `n` stratification, whose cell width is the truncated `1/n`.
pub open spec fn spec_cell_ok(p: Vector2, n: int, k: int) -> bool {
    let bd = spec_fdiv(1 * SCALE, n * SCALE);
    let cx = k % n;
    let cy = k / n;
    &&& bd * cx <= p.x.raw < bd * (cx + 1)
    &&& bd * cy <= p.y.raw < bd * (cy + 1)
}

/// What `regular_sampler` produces: shuffled copies of the exact
/// stratified grid.
pub open spec fn spec_regular_square(sq: UnitSquareSampler, n: int) -> bool {
    &&& sq.wf()
    &&& sq.points_ok()
    &&& sq.samples@.len() == NUM_SAMPLE_SETS
    &&& forall|s: int|
        0 <= s < NUM_SAMPLE_SETS ==> (#[trigger] sq.samples@[s]@).len() == n * n
            && sq.samples@[s]@.to_multiset() == spec_regular_base(n).to_multiset()
}

/// `base` is a jittered stratification: one point inside each grid
/// cell, and every one of the sampler's sets is a permutation of it.
pub open spec fn spec_jittered_base_of(sq: UnitSquareSampler, base: Seq<Vector2>, n: int)
    -> bool {
    &&& base.len() == n * n
    &&& (forall|k: int| 0 <= k < base.len() ==> spec_cell_ok(#[trigger] base[k], n, k))
    &&& (forall|s: int|
        0 <= s < sq.samples@.len() ==> (#[trigger] sq.samples@[s]@).to_multiset()
            == base.to_multiset())
}

/// What `jittered_sampler` produces: shuffled copies of one drawn
/// base that holds exactly one point inside each grid cell.
pub open spec fn spec_jittered_square(sq: UnitSquareSampler, n: int) -> bool {
    &&& sq.wf()
    &&& sq.points_ok()
    &&& sq.samples@.len() == NUM_SAMPLE_SETS
    &&& forall|s: int|
        0 <= s < NUM_SAMPLE_SETS ==> (#[trigger] sq.samples@[s]@).len() == n * n
    &&& exists|base: Seq<Vector2>| spec_jittered_base_of(sq, base, n)
}

/// Dividing both operands of a fixed quotient by the scale leaves a
/// plain integer quotient: `spec_fdiv(a * SCALE, d * SCALE)` is
/// `(a * SCALE) / d` for positive `d`.
proof fn lemma_fdiv_cancel_scale(a: int, d: int)
    requires
        a >= 0,
        d > 0,
    ensures
        spec_fdiv(a * SCALE, d * SCALE) == (a * SCALE) / d,
{
    let s = SCALE as int;
    assert(a * s * s >= 0) by (nonlinear_arith)
        requires
            a >= 0,
            s > 0,
    ;
    assert(d * s > 0) by (nonlinear_arith)
        requires
            d > 0,
            s > 0,
    ;
    assert(spec_fdiv(a * s, d * s) == ((a * s) * s) / (d * s));
    assert(((a * s) * s) / (d * s) == ((a * s) * s) / (s * d)) by (nonlinear_arith);
    vstd::arithmetic::div_mod::lemma_div_denominator((a * s) * s, s, d);
    assert(((a * s) * s) / s == a * s) by {
        vstd::arithmetic::div_mod::lemma_div_multiples_vanish(a * s, s);
        assert((a * s) * s == s * (a * s)) by (nonlinear_arith);
    }
}

/// Every point of the stratified grid lies in the unit square.
proof fn lemma_regular_point_range(n: int, k: int)
    requires
        1 <= n <= 256,
        0 <= k < n * n,
    ensures
        in_unit_square(spec_regular_point(n, k)),
{
    let s = SCALE as int;
    let x = k % n;
    let y = k / n;
    vstd::arithmetic::div_mod::lemma_mod_bound(k, n);
    assert(0 <= y < n) by {
        vstd::arithmetic::div_mod::lemma_div_pos_is_pos(k, n);
        if y >= n {
            assert(k >= n * n) by (nonlinear_arith)
                requires
                    k / n >= n,
                    n > 0,
                    k >= 0,
                    y == k / n,
                {
                    vstd::arithmetic::div_mod::lemma_fundamental_div_mod(k, n);
                    vstd::arithmetic::div_mod::lemma_mod_bound(k, n);
                }
        }
    }
    lemma_fdiv_cancel_scale(1, n * 2);
    lemma_fdiv_cancel_scale(x, n);
    lemma_fdiv_cancel_scale(y, n);
    lemma_regular_coord_range(n, x);
    lemma_regular_coord_range(n, y);
}

/// One grid coordinate `1/(2n) + c/n` stays in the unit interval.
proof fn lemma_regular_coord_range(n: int, c: int)
    requires
        1 <= n <= 256,
        0 <= c < n,
    ensures
        0 <= spec_fdiv(1 * SCALE, n * 2 * SCALE) + spec_fdiv(c * SCALE, n * SCALE) <= SCALE,
{
    let s = SCALE as int;
    lemma_fdiv_cancel_scale(1, n * 2);
    lemma_fdiv_cancel_scale(c, n);
    let off = (1 * s) / (n * 2);
    let cp = (c * s) / n;
    vstd::arithmetic::div_mod::lemma_div_pos_is_pos(1 * s, n * 2);
    vstd::arithmetic::div_mod::lemma_div_pos_is_pos(c * s, n);
    // off <= s / (2 n) and cp <= (n - 1) s / n, so their sum is below s.
    assert(off * (n * 2) <= 1 * s) by {
        vstd::arithmetic::div_mod::lemma_fundamental_div_mod(1 * s, n * 2);
        vstd::arithmetic::div_mod::lemma_mod_bound(1 * s, n * 2);
    }
    assert(cp * n <= c * s) by {
        vstd::arithmetic::div_mod::lemma_fundamental_div_mod(c * s, n);
        vstd::arithmetic::div_mod::lemma_mod_bound(c * s, n);
    }
    assert((off + cp) * (n * 2) <= s + 2 * (c * s)) by (nonlinear_arith)
        requires
            off * (n * 2) <= 1 * s,
            cp * n <= c * s,
            n > 0,
    ;
    assert(s + 2 * (c * s) <= (n * 2) * s - s) by (nonlinear_arith)
        requires
            c < n,
            s > 0,
    ;
    assert(off + cp <= s) by (nonlinear_arith)
        requires
            (off + cp) * (n * 2) <= (n * 2) * s - s,
            n > 0,
            s > 0,
    ;
}

impl UnitSquareSampler {
    /// The stratified `n` by `n` grid, one point per cell center, in
    /// `NUM_SAMPLE_SETS` shuffled copies.
    pub fn regular_sampler(samples_per_axis: usize) -> (r: UnitSquareSampler)
        requires
            1 <= samples_per_axis <= MAX_SAMPLES_PER_AXIS,
        ensures
            r.wf(),
            r.points_ok(),
            r.samples@.len() == NUM_SAMPLE_SETS,
            forall|s: int|
                0 <= s < NUM_SAMPLE_SETS ==> (#[trigger] r.samples@[s]@).len()
                    == samples_per_axis * samples_per_axis && r.samples@[s]@.to_multiset()
                    == spec_regular_base(samples_per_axis as int).to_multiset(),
            spec_regular_square(r, samples_per_axis as int),
    {
        let n = samples_per_axis;
        let base = regular_base(n);
        proof {
            assert(1 <= n * n) by (nonlinear_arith)
                requires
                    n >= 1,
            ;
        }
        let sets = create_shuffled_samples(&base, NUM_SAMPLE_SETS);
        let r = UnitSquareSampler { samples: sets };
        proof {
            assert forall|s: int, k: int|
                0 <= s < r.samples@.len() && 0 <= k < r.samples@[s]@.len() implies in_unit_square(
                #[trigger] r.samples@[s]@[k],
            ) by {
                lemma_multiset_pointwise(
                    base@,
                    r.samples@[s]@,
                    |p: Vector2| in_unit_square(p),
                );
            }
            assert(r.samples@[0]@.len() == n * n);
        }
        r
    }
}

/// The row-major stratified base grid, with every point proven to be
/// in the unit square; `regular_sampler` shuffles copies of it.
pub fn regular_base(n: usize) -> (base: Vec<Vector2>)
    requires
        1 <= n <= MAX_SAMPLES_PER_AXIS,
    ensures
        base@ == spec_regular_base(n as int),
        base@.len() == n * n,
        forall|k: int| 0 <= k < base@.len() ==> in_unit_square(#[trigger] base@[k]),
{
    let offset = Fx::from_ratio(1, (n * 2) as i64);
    let mut base: Vec<Vector2> = Vec::new();
    let mut y: usize = 0;
    while y < n
        invariant
            1 <= n <= 256,
            y <= n,
            offset.raw == spec_fdiv(1 * SCALE, n as int * 2 * SCALE),
            base@.len() == y * n,
            forall|k: int| 0 <= k < y * n ==> (#[trigger] base@[k]) == spec_regular_point(n as int, k),
        decreases n - y,
    {
        let fy = offset.fadd(Fx::from_ratio(y as i64, n as i64));
        let mut x: usize = 0;
        while x < n
            invariant
                1 <= n <= 256,
                y < n,
                x <= n,
                offset.raw == spec_fdiv(1 * SCALE, n as int * 2 * SCALE),
                fy.raw == spec_fdiv(1 * SCALE, n as int * 2 * SCALE) + spec_fdiv(
                    y as int * SCALE,
                    n as int * SCALE,
                ),
                base@.len() == y * n + x,
                forall|k: int|
                    0 <= k < y * n + x ==> (#[trigger] base@[k]) == spec_regular_point(
                        n as int,
                        k,
                    ),
            decreases n - x,
        {
            let fx = offset.fadd(Fx::from_ratio(x as i64, n as i64));
            base.push(Vector2 { x: fx, y: fy });
            proof {
                let ni = n as int;
                let k = y as int * ni + x as int;
                vstd::arithmetic::div_mod::lemma_fundamental_div_mod_converse(
                    k,
                    ni,
                    y as int,
                    x as int,
                );
                assert(base@[k] == spec_regular_point(ni, k));
                assert(y * n + x + 1 == y as int * ni + (x as int + 1));
            }
            x = x + 1;
        }
        proof {
            assert(y * n + n == (y + 1) * n) by (nonlinear_arith);
        }
        y = y + 1;
    }
    proof {
        assert(n * n == n as int * n as int) by (nonlinear_arith);
        assert(base@ =~= spec_regular_base(n as int));
        assert forall|k: int| 0 <= k < base@.len() implies in_unit_square(#[trigger] base@[k]) by {
            lemma_regular_point_range(n as int, k);
        }
    }
    base
}

impl UnitSquareSampler {
    /// The stratified grid with every point displaced by a uniform
    /// random offset inside its cell, in `NUM_SAMPLE_SETS` shuffled
    /// copies. All sets share one point multiset.
    pub fn jittered_sampler(samples_per_axis: usize) -> (r: UnitSquareSampler)
        requires
            1 <= samples_per_axis <= MAX_SAMPLES_PER_AXIS,
        ensures
            r.wf(),
            r.points_ok(),
            r.samples@.len() == NUM_SAMPLE_SETS,
            forall|s: int|
                0 <= s < NUM_SAMPLE_SETS ==> (#[trigger] r.samples@[s]@).len()
                    == samples_per_axis * samples_per_axis,
            forall|s1: int, s2: int|
                0 <= s1 < NUM_SAMPLE_SETS && 0 <= s2 < NUM_SAMPLE_SETS ==> (
                #[trigger] r.samples@[s1]@.to_multiset()) == (
                #[trigger] r.samples@[s2]@.to_multiset()),
            spec_jittered_square(r, samples_per_axis as int),
    {
        let n = samples_per_axis;
        let box_dim = Fx::from_ratio(1, n as i64);
        proof {
            lemma_fdiv_cancel_scale(1, n as int);
            vstd::arithmetic::div_mod::lemma_div_pos_is_pos(1 * SCALE, n as int);
            assert(((1 * SCALE) / (n as int)) * n as int <= 1 * SCALE) by {
                vstd::arithmetic::div_mod::lemma_fundamental_div_mod(1 * SCALE, n as int);
                vstd::arithmetic::div_mod::lemma_mod_bound(1 * SCALE, n as int);
            }
            assert((1 * SCALE) / 256int <= (1 * SCALE) / (n as int)) by {
                vstd::arithmetic::div_mod::lemma_div_is_ordered_by_denominator(
                    1 * SCALE,
                    n as int,
                    256,
                );
            }
        }
        let mut base: Vec<Vector2> = Vec::new();
        let mut y: usize = 0;
        while y < n
            invariant
                1 <= n <= 256,
                y <= n,
                1 <= box_dim.raw,
                box_dim.raw * n <= SCALE,
                box_dim.raw == spec_fdiv(1 * SCALE, n as int * SCALE),
                base@.len() == y * n,
                forall|k: int| 0 <= k < y * n ==> in_unit_square(#[trigger] base@[k]),
                forall|k: int|
                    0 <= k < y * n ==> spec_cell_ok(#[trigger] base@[k], n as int, k),
            decreases n - y,
        {
            let mut x: usize = 0;
            while x < n
                invariant
                    1 <= n <= 256,
                    y < n,
                    x <= n,
                    1 <= box_dim.raw,
                    box_dim.raw * n <= SCALE,
                    box_dim.raw == spec_fdiv(1 * SCALE, n as int * SCALE),
                    base@.len() == y * n + x,
                    forall|k: int| 0 <= k < y * n + x ==> in_unit_square(#[trigger] base@[k]),
                    forall|k: int|
                        0 <= k < y * n + x ==> spec_cell_ok(#[trigger] base@[k], n as int, k),
                decreases n - x,
            {
                let fx = jittered_coord(box_dim, x, n);
                let fy = jittered_coord(box_dim, y, n);
                base.push(Vector2 { x: fx, y: fy });
                proof {
                    let ni = n as int;
                    let k = y as int * ni + x as int;
                    vstd::arithmetic::div_mod::lemma_fundamental_div_mod_converse(
                        k,
                        ni,
                        y as int,
                        x as int,
                    );
                    assert(spec_cell_ok(base@[k], ni, k));
                    assert(y * n + x + 1 == y as int * ni + (x as int + 1));
                }
                x = x + 1;
            }
            proof {
                assert(y * n + n == (y + 1) * n) by (nonlinear_arith);
            }
            y = y + 1;
        }
        proof {
            assert(1 <= n * n) by (nonlinear_arith)
                requires
                    n >= 1,
            ;
            assert(base@.len() == n * n) by (nonlinear_arith)
                requires
                    base@.len() == n as int * n as int,
            ;
        }
        let sets = create_shuffled_samples(&base, NUM_SAMPLE_SETS);
        let r = UnitSquareSampler { samples: sets };
        proof {
            assert forall|s: int, k: int|
                0 <= s < r.samples@.len() && 0 <= k < r.samples@[s]@.len() implies in_unit_square(
                #[trigger] r.samples@[s]@[k],
            ) by {
                lemma_multiset_pointwise(
                    base@,
                    r.samples@[s]@,
                    |p: Vector2| in_unit_square(p),
                );
            }
            assert(spec_jittered_base_of(r, base@, n as int));
        }
        r
    }
}

/// One jittered coordinate: `cell * c` plus a random fraction of a
/// cell; always inside the unit interval.
fn jittered_coord(box_dim: Fx, c: usize, n: usize) -> (r: Fx)
    requires
        1 <= box_dim.raw,
        box_dim.raw * n <= SCALE,
        c < n,
        n <= 256,
    ensures
        0 <= r.raw <= SCALE,
        box_dim.raw * c <= r.raw < box_dim.raw * (c + 1),
{
    let jitter = Fx { raw: random_below(65536) as i128 };
    proof {
        assert(box_dim.raw <= SCALE) by (nonlinear_arith)
            requires
                box_dim.raw * n <= SCALE,
                n >= 1,
                box_dim.raw >= 0,
        ;
    }
    let cell_start = box_dim.fmul(Fx::from_int(c as i64));
    let offset = box_dim.fmul(jitter);
    proof {
        let bd = box_dim.raw as int;
        let ci = c as int;
        let s = SCALE as int;
        assert(spec_fmul(bd, ci * s) == bd * ci) by {
            assert(bd * (ci * s) == (bd * ci) * s) by (nonlinear_arith);
            vstd::arithmetic::div_mod::lemma_div_multiples_vanish(bd * ci, s);
        }
        assert(0 <= bd * ci) by (nonlinear_arith)
            requires
                bd >= 0,
                ci >= 0,
        ;
        lemma_fmul_unit_mono(0, bd, 0, jitter.raw as int);
        lemma_fmul_unit_mono(bd, bd, jitter.raw as int, s);
        assert(spec_fmul(bd, s) == bd) by {
            vstd::arithmetic::div_mod::lemma_div_multiples_vanish(bd, s);
        }
        assert(bd * ci + bd <= bd * n) by (nonlinear_arith)
            requires
                ci < n,
                bd >= 0,
        ;
        assert(bd * n <= s);
        // The jitter offset stays strictly inside one cell.
        assert(bd * jitter.raw <= bd * 65535) by (nonlinear_arith)
            requires
                bd >= 0,
                0 <= jitter.raw <= 65535,
        ;
        assert(bd * 65535 <= bd * 65536 - 1) by (nonlinear_arith)
            requires
                bd >= 1,
        ;
        vstd::arithmetic::div_mod::lemma_div_is_ordered(bd * jitter.raw, bd * 65536 - 1, 65536);
        vstd::arithmetic::div_mod::lemma_fundamental_div_mod_converse(
            bd * 65536 - 1,
            65536,
            bd - 1,
            65535,
        );
        assert((bd - 1) * 65536 + 65535 == bd * 65536 - 1) by (nonlinear_arith);
        assert(spec_fmul(bd, jitter.raw as int) < bd);
        assert(bd * ci + bd == bd * (ci + 1)) by (nonlinear_arith);
    }
    cell_start.fadd(offset)
}

/// The truncated `sin` of the polar angle whose cosine is `z`:
/// the square root of `1 - z * z` in fixed point.
pub open spec fn spec_sintheta(z: int) -> int {
    spec_isqrt(((SCALE - spec_fmul(z, z)) * SCALE) as nat) as int
}

/// Exact value of the hemisphere mapping of one unit-square sample
/// under cosine-power exponent `e`: the cosine to the normal is the
/// `(e+1)`-th root of `1 - y`, the azimuth is `x` in turns.
pub open spec fn spec_hemisphere_point(e: int, p: Vector2) -> Vector3 {
    let ct = spec_rootfrac(SCALE - p.y.raw, (e + 1) as nat);
    let st = spec_sintheta(ct);
    Vector3 {
        x: Fx { raw: spec_fmul(st, spec_cos_turns(p.x.raw as int)) as i128 },
        y: Fx { raw: spec_fmul(st, spec_sin_turns(p.x.raw as int)) as i128 },
        z: Fx { raw: ct as i128 },
    }
}

/// Maps a unit-square sample to a hemisphere direction with a
/// cosine-power distribution of exponent `e`: the azimuth is the
/// sample's x in turns, the cosine to the normal is the `(e+1)`-th
/// root of `1 - y`.
pub fn unit_square_sample_to_hemisphere_sample(e: u32, sample: Vector2) -> (r: Vector3)
    requires
        in_unit_square(sample),
        e <= MAX_EXPONENT,
    ensures
        r == spec_hemisphere_point(e as int, sample),
        hemi_ok(r),
        spec_powfrac(r.z.raw as int, (e + 1) as nat) <= SCALE - sample.y.raw,
        r.z.raw < SCALE ==> SCALE - sample.y.raw < spec_powfrac(r.z.raw as int + 1, (e + 1) as nat),
        sample.y.raw == 0 ==> r.z.raw == SCALE,
        r.x.raw == spec_fmul(spec_sintheta(r.z.raw as int), spec_cos_turns(sample.x.raw as int)),
        r.y.raw == spec_fmul(spec_sintheta(r.z.raw as int), spec_sin_turns(sample.x.raw as int)),
{
    let costheta = root_frac(Fx::one().fsub(sample.y), e + 1);
    proof {
        lemma_fmul_unit_mono(costheta.raw as int, costheta.raw as int, costheta.raw as int, costheta.raw as int);
    }
    let c2 = costheta.fmul(costheta);
    let sintheta = Fx::one().fsub(c2).fsqrt();
    proof {
        let arg = (SCALE - c2.raw) as int;
        let st = sintheta.raw as int;
        assert(st * st <= arg * SCALE);
        assert(arg * SCALE <= SCALE as int * SCALE) by (nonlinear_arith)
            requires
                arg <= SCALE,
        ;
        assert(st <= SCALE) by (nonlinear_arith)
            requires
                st * st <= SCALE as int * SCALE,
                st >= 0,
        ;
    }
    let cosphi = sample.x.cos_turns();
    let sinphi = sample.x.sin_turns();
    proof {
        let st = sintheta.raw as int;
        lemma_fmul_bound(st, spec_cos_turns(sample.x.raw as int), SCALE as int, SCALE as int);
        lemma_fmul_bound(st, spec_sin_turns(sample.x.raw as int), SCALE as int, SCALE as int);
        vstd::arithmetic::div_mod::lemma_div_multiples_vanish(SCALE as int, SCALE as int);
    }
    Vector3 { x: sintheta.fmul(cosphi), y: sintheta.fmul(sinphi), z: costheta }
}

/// Sample directions over the hemisphere around a surface normal,
/// for diffuse scattering.
#[derive(Clone, Debug)]
pub struct HemiSphereSampler {
    pub samples: Vec<Vec<Vector3>>,
}

/// The hemisphere mapping under exponent `e`, as a point function.
pub open spec fn spec_hemi_map(e: int) -> spec_fn(Vector2) -> Vector3 {
    |p: Vector2| spec_hemisphere_point(e, p)
}

/// `h` is the pointwise hemisphere image of the unit-square sampler
/// `sq` under exponent `e`: same set count, same set lengths, and
/// entry `(s, k)` of `h` is `spec_hemisphere_point` of entry `(s, k)`
/// of `sq`.
pub open spec fn spec_hemisphere_image_of(h: HemiSphereSampler, sq: UnitSquareSampler, e: int)
    -> bool {
    &&& h.samples@.len() == sq.samples@.len()
    &&& (forall|s: int|
        0 <= s < h.samples@.len() ==> (#[trigger] h.samples@[s]@.len())
            == sq.samples@[s]@.len())
    &&& (forall|s: int, k: int|
        0 <= s < h.samples@.len() && 0 <= k < h.samples@[s]@.len()
            ==> (#[trigger] h.samples@[s]@[k]) == spec_hemisphere_point(
            e,
            sq.samples@[s]@[k],
        ))
}

impl HemiSphereSampler {
    /// Non-empty sets of equal, non-zero size.
    pub open spec fn wf(self) -> bool {
        &&& self.samples@.len() > 0
        &&& self.samples@[0]@.len() > 0
        &&& forall|s: int|
            0 <= s < self.samples@.len() ==> (#[trigger] self.samples@[s]@.len())
                == self.samples@[0]@.len()
    }

    /// Every stored direction is a hemisphere direction.
    pub open spec fn points_ok(self) -> bool {
        forall|s: int, k: int|
            0 <= s < self.samples@.len() && 0 <= k < self.samples@[s]@.len() ==> hemi_ok(
                #[trigger] self.samples@[s]@[k],
            )
    }

    /// The stored direction at `(set_index mod sets, sample_index mod
    /// set size)`.
    pub fn sample(&self, set_index: usize, sample_index: usize) -> (p: Vector3)
        requires
            self.wf(),
        ensures
            p == self.samples@[set_index as int % self.samples@.len() as int]@[sample_index as int
                % self.samples@[set_index as int % self.samples@.len() as int]@.len() as int],
            self.points_ok() ==> hemi_ok(p),
    {
        let si = set_index % self.samples.len();
        let set = &self.samples[si];
        let pi = sample_index % set.len();
        set[pi]
    }

    /// A single sample straight along the normal.
    pub fn standard_sampler() -> (r: HemiSphereSampler)
        ensures
            r.wf(),
            r.points_ok(),
            r.samples@.len() == 1,
            r.samples@[0]@.len() == 1,
            r.samples@[0]@[0] == (Vector3 {
                x: Fx { raw: 0 },
                y: Fx { raw: 0 },
                z: Fx { raw: SCALE },
            }),
    {
        let mut set: Vec<Vector3> = Vec::new();
        set.push(Vector3 { x: Fx { raw: 0 }, y: Fx { raw: 0 }, z: Fx { raw: SCALE } });
        let mut samples: Vec<Vec<Vector3>> = Vec::new();
        samples.push(set);
        HemiSphereSampler { samples }
    }

    /// The stratified grid mapped to the hemisphere: the pointwise
    /// hemisphere image of a regular sampler (shuffled copies of the
    /// exact grid).
    pub fn regular_sampler(samples_per_axis: usize, e: u32) -> (r: HemiSphereSampler)
        requires
            1 <= samples_per_axis <= MAX_SAMPLES_PER_AXIS,
            e <= MAX_EXPONENT,
        ensures
            r.wf(),
            r.points_ok(),
            r.samples@.len() == NUM_SAMPLE_SETS,
            forall|s: int|
                0 <= s < NUM_SAMPLE_SETS ==> (#[trigger] r.samples@[s]@).len()
                    == samples_per_axis * samples_per_axis,
            exists|sq: UnitSquareSampler|
                #[trigger] spec_hemisphere_image_of(r, sq, e as int) && spec_regular_square(
                    sq,
                    samples_per_axis as int,
                ),
            forall|s: int|
                0 <= s < NUM_SAMPLE_SETS ==> (#[trigger] r.samples@[s]@).to_multiset()
                    == spec_regular_base(samples_per_axis as int).map_values(
                    spec_hemi_map(e as int),
                ).to_multiset(),
    {
        let square = UnitSquareSampler::regular_sampler(samples_per_axis);
        let r = from_unit_square_sampler(&square, e);
        proof {
            assert(spec_hemisphere_image_of(r, square, e as int));
            let base = spec_regular_base(samples_per_axis as int);
            let f = spec_hemi_map(e as int);
            assert forall|s: int|
                0 <= s < NUM_SAMPLE_SETS implies (#[trigger] r.samples@[s]@).to_multiset()
                == base.map_values(f).to_multiset() by {
                assert(r.samples@[s]@ =~= square.samples@[s]@.map_values(f));
                lemma_map_values_multiset(square.samples@[s]@, base, f);
            }
        }
        r
    }

    /// The jittered grid mapped to the hemisphere: the pointwise
    /// hemisphere image of a jittered sampler (shuffled copies of one
    /// one-point-per-cell base).
    pub fn jittered_sampler(samples_per_axis: usize, e: u32) -> (r: HemiSphereSampler)
        requires
            1 <= samples_per_axis <= MAX_SAMPLES_PER_AXIS,
            e <= MAX_EXPONENT,
        ensures
            r.wf(),
            r.points_ok(),
            r.samples@.len() == NUM_SAMPLE_SETS,
            forall|s: int|
                0 <= s < NUM_SAMPLE_SETS ==> (#[trigger] r.samples@[s]@).len()
                    == samples_per_axis * samples_per_axis,
            exists|sq: UnitSquareSampler|
                #[trigger] spec_hemisphere_image_of(r, sq, e as int) && spec_jittered_square(
                    sq,
                    samples_per_axis as int,
                ),
    {
        let square = UnitSquareSampler::jittered_sampler(samples_per_axis);
        let r = from_unit_square_sampler(&square, e);
        proof {
            assert(spec_hemisphere_image_of(r, square, e as int));
        }
        r
    }
}

/// Maps every stored point of a unit-square sampler through the
/// hemisphere mapping, set by set.
fn from_unit_square_sampler(sampler: &UnitSquareSampler, e: u32) -> (r: HemiSphereSampler)
    requires
        sampler.wf(),
        sampler.points_ok(),
        e <= MAX_EXPONENT,
    ensures
        r.wf(),
        r.points_ok(),
        r.samples@.len() == sampler.samples@.len(),
        forall|s: int|
            0 <= s < r.samples@.len() ==> (#[trigger] r.samples@[s]@.len())
                == sampler.samples@[s]@.len(),
        forall|s: int, k: int|
            0 <= s < r.samples@.len() && 0 <= k < r.samples@[s]@.len()
                ==> (#[trigger] r.samples@[s]@[k]) == spec_hemisphere_point(
                e as int,
                sampler.samples@[s]@[k],
            ),
{
    let mut samples: Vec<Vec<Vector3>> = Vec::new();
    let mut s: usize = 0;
    while s < sampler.samples.len()
        invariant
            sampler.wf(),
            sampler.points_ok(),
            e <= MAX_EXPONENT,
            s <= sampler.samples@.len(),
            samples@.len() == s,
            forall|i: int|
                0 <= i < s ==> (#[trigger] samples@[i]@.len()) == sampler.samples@[i]@.len(),
            forall|i: int, k: int|
                0 <= i < s && 0 <= k < samples@[i]@.len() ==> hemi_ok(
                    #[trigger] samples@[i]@[k],
                ),
            forall|i: int, k: int|
                0 <= i < s && 0 <= k < samples@[i]@.len() ==> (#[trigger] samples@[i]@[k])
                    == spec_hemisphere_point(e as int, sampler.samples@[i]@[k]),
        decreases sampler.samples@.len() - s,
    {
        let set = &sampler.samples[s];
        let mut out: Vec<Vector3> = Vec::new();
        let mut k: usize = 0;
        while k < set.len()
            invariant
                sampler.wf(),
                sampler.points_ok(),
                e <= MAX_EXPONENT,
                s < sampler.samples@.len(),
                set == &sampler.samples[s as int],
                k <= set@.len(),
                out@.len() == k,
                forall|i: int| 0 <= i < k ==> hemi_ok(#[trigger] out@[i]),
                forall|i: int|
                    0 <= i < k ==> (#[trigger] out@[i]) == spec_hemisphere_point(
                        e as int,
                        set@[i],
                    ),
            decreases set@.len() - k,
        {
            out.push(unit_square_sample_to_hemisphere_sample(e, set[k]));
            k = k + 1;
        }
        samples.push(out);
        s = s + 1;
    }
    HemiSphereSampler { samples }
}

/// Sample points inside the unit ball, for metal fuzz perturbation.
#[derive(Clone, Debug)]
pub struct UnitSphereSampler {
    pub samples: Vec<Vec<Vector3>>,
}

impl UnitSphereSampler {
    /// Non-empty sets of equal, non-zero size.
    pub open spec fn wf(self) -> bool {
        &&& self.samples@.len() > 0
        &&& self.samples@[0]@.len() > 0
        &&& forall|s: int|
            0 <= s < self.samples@.len() ==> (#[trigger] self.samples@[s]@.len())
                == self.samples@[0]@.len()
    }

    /// Every stored point lies inside the unit ball.
    pub open spec fn points_ok(self) -> bool {
        forall|s: int, k: int|
            0 <= s < self.samples@.len() && 0 <= k < self.samples@[s]@.len() ==> in_ball(
                #[trigger] self.samples@[s]@[k],
            )
    }

    /// The stored point at `(set_index mod sets, sample_index mod set
    /// size)`.
    pub fn sample(&self, set_index: usize, sample_index: usize) -> (p: Vector3)
        requires
            self.wf(),
        ensures
            p == self.samples@[set_index as int % self.samples@.len() as int]@[sample_index as int
                % self.samples@[set_index as int % self.samples@.len() as int]@.len() as int],
            self.points_ok() ==> in_ball(p),
    {
        let si = set_index % self.samples.len();
        let set = &self.samples[si];
        let pi = sample_index % set.len();
        set[pi]
    }

    /// A single sample at the origin (no perturbation).
    pub fn standard_sampler() -> (r: UnitSphereSampler)
        ensures
            r.wf(),
            r.points_ok(),
            r.samples@.len() == 1,
            r.samples@[0]@.len() == 1,
            r.samples@[0]@[0] == (Vector3 {
                x: Fx { raw: 0 },
                y: Fx { raw: 0 },
                z: Fx { raw: 0 },
            }),
    {
        let mut set: Vec<Vector3> = Vec::new();
        set.push(Vector3 { x: Fx { raw: 0 }, y: Fx { raw: 0 }, z: Fx { raw: 0 } });
        let mut samples: Vec<Vec<Vector3>> = Vec::new();
        samples.push(set);
        let r = UnitSphereSampler { samples };
        proof {
            vstd::arithmetic::div_mod::lemma_div_of0(SCALE as int);
            assert(spec_fmul(0, 0) == 0);
            assert(r.samples@[0]@[0] == (Vector3 {
                x: Fx { raw: 0 },
                y: Fx { raw: 0 },
                z: Fx { raw: 0 },
            }));
            assert(spec_dot(r.samples@[0]@[0], r.samples@[0]@[0]) == 0);
        }
        r
    }

    /// `num_samples` points drawn uniformly inside the unit ball by
    /// rejection, in `NUM_SAMPLE_SETS` shuffled copies. Draws that
    /// land outside the ball are rejected; if the (astronomically
    /// unlikely) draw budget runs out, the remaining points are the
    /// origin.
    pub fn random_sampler(num_samples: usize) -> (r: UnitSphereSampler)
        requires
            1 <= num_samples <= 65536,
        ensures
            r.wf(),
            r.points_ok(),
            r.samples@.len() == NUM_SAMPLE_SETS,
            forall|s: int|
                0 <= s < NUM_SAMPLE_SETS ==> (#[trigger] r.samples@[s]@).len() == num_samples,
    {
        let mut base: Vec<Vector3> = Vec::new();
        let mut tries: usize = 0;
        let max_tries: usize = num_samples * 64;
        while base.len() < num_samples && tries < max_tries
            invariant
                base@.len() <= num_samples,
                forall|i: int| 0 <= i < base@.len() ==> in_ball(#[trigger] base@[i]),
            decreases max_tries - tries,
        {
            tries = tries + 1;
            let v = Vector3 {
                x: Fx { raw: random_below(131073) as i128 - 65536 },
                y: Fx { raw: random_below(131073) as i128 - 65536 },
                z: Fx { raw: random_below(131073) as i128 - 65536 },
            };
            let len_sq = v.length_squared();
            if len_sq.raw <= SCALE {
                base.push(v);
            }
        }
        while base.len() < num_samples
            invariant
                base@.len() <= num_samples,
                forall|i: int| 0 <= i < base@.len() ==> in_ball(#[trigger] base@[i]),
            decreases num_samples - base@.len(),
        {
            let origin = Vector3 { x: Fx { raw: 0 }, y: Fx { raw: 0 }, z: Fx { raw: 0 } };
            proof {
                vstd::arithmetic::div_mod::lemma_div_of0(SCALE as int);
                assert(spec_dot(origin, origin) == 0);
            }
            base.push(origin);
        }
        let sets = create_shuffled_samples(&base, NUM_SAMPLE_SETS);
        let r = UnitSphereSampler { samples: sets };
        proof {
            assert forall|s: int, k: int|
                0 <= s < r.samples@.len() && 0 <= k < r.samples@[s]@.len() implies in_ball(
                #[trigger] r.samples@[s]@[k],
            ) by {
                lemma_multiset_pointwise(base@, r.samples@[s]@, |p: Vector3| in_ball(p));
            }
        }
        r
    }
}


impl UnitSquareSampler {
    /// Checks `wf` and `points_ok` at run time, for callers that
    /// assemble samplers outside the library's constructors.
    pub fn check_wf(&self) -> (r: bool)
        ensures
            r == (self.wf() && self.points_ok()),
    {
        if self.samples.len() == 0 {
            return false;
        }
        if self.samples[0].len() == 0 {
            return false;
        }
        let n0 = self.samples[0].len();
        let mut s: usize = 0;
        while s < self.samples.len()
            invariant
                self.samples@.len() > 0,
                n0 == self.samples@[0]@.len(),
                s <= self.samples@.len(),
                forall|i: int|
                    0 <= i < s ==> (#[trigger] self.samples@[i]@.len()) == n0,
                forall|i: int, k: int|
                    0 <= i < s && 0 <= k < self.samples@[i]@.len() ==> in_unit_square(
                        #[trigger] self.samples@[i]@[k],
                    ),
            decreases self.samples@.len() - s,
        {
            let set = &self.samples[s];
            if set.len() != n0 {
                return false;
            }
            let mut k: usize = 0;
            while k < set.len()
                invariant
                    0 <= s < self.samples@.len(),
                    set@ == self.samples@[s as int]@,
                    k <= set@.len(),
                    forall|j: int| 0 <= j < k ==> in_unit_square(#[trigger] set@[j]),
                decreases set@.len() - k,
            {
                let p = set[k];
                if !(0 <= p.x.raw && p.x.raw <= SCALE && 0 <= p.y.raw && p.y.raw <= SCALE) {
                    return false;
                }
                k = k + 1;
            }
            s = s + 1;
        }
        true
    }
}

impl HemiSphereSampler {
    /// Checks `wf` and `points_ok` at run time.
    pub fn check_wf(&self) -> (r: bool)
        ensures
            r == (self.wf() && self.points_ok()),
    {
        if self.samples.len() == 0 {
            return false;
        }
        if self.samples[0].len() == 0 {
            return false;
        }
        let n0 = self.samples[0].len();
        let mut s: usize = 0;
        while s < self.samples.len()
            invariant
                self.samples@.len() > 0,
                n0 == self.samples@[0]@.len(),
                s <= self.samples@.len(),
                forall|i: int|
                    0 <= i < s ==> (#[trigger] self.samples@[i]@.len()) == n0,
                forall|i: int, k: int|
                    0 <= i < s && 0 <= k < self.samples@[i]@.len() ==> hemi_ok(
                        #[trigger] self.samples@[i]@[k],
                    ),
            decreases self.samples@.len() - s,
        {
            let set = &self.samples[s];
            if set.len() != n0 {
                return false;
            }
            let mut k: usize = 0;
            while k < set.len()
                invariant
                    0 <= s < self.samples@.len(),
                    set@ == self.samples@[s as int]@,
                    k <= set@.len(),
                    forall|j: int| 0 <= j < k ==> hemi_ok(#[trigger] set@[j]),
                decreases set@.len() - k,
            {
                let p = set[k];
                if !(0 <= p.z.raw && p.z.raw <= SCALE && -SCALE <= p.x.raw && p.x.raw <= SCALE
                    && -SCALE <= p.y.raw && p.y.raw <= SCALE) {
                    return false;
                }
                k = k + 1;
            }
            s = s + 1;
        }
        true
    }
}

impl UnitSphereSampler {
    /// Checks `wf` and `points_ok` at run time.
    pub fn check_wf(&self) -> (r: bool)
        ensures
            r == (self.wf() && self.points_ok()),
    {
        if self.samples.len() == 0 {
            return false;
        }
        if self.samples[0].len() == 0 {
            return false;
        }
        let n0 = self.samples[0].len();
        let mut s: usize = 0;
        while s < self.samples.len()
            invariant
                self.samples@.len() > 0,
                n0 == self.samples@[0]@.len(),
                s <= self.samples@.len(),
                forall|i: int|
                    0 <= i < s ==> (#[trigger] self.samples@[i]@.len()) == n0,
                forall|i: int, k: int|
                    0 <= i < s && 0 <= k < self.samples@[i]@.len() ==> in_ball(
                        #[trigger] self.samples@[i]@[k],
                    ),
            decreases self.samples@.len() - s,
        {
            let set = &self.samples[s];
            if set.len() != n0 {
                return false;
            }
            let mut k: usize = 0;
            while k < set.len()
                invariant
                    0 <= s < self.samples@.len(),
                    set@ == self.samples@[s as int]@,
                    k <= set@.len(),
                    forall|j: int| 0 <= j < k ==> in_ball(#[trigger] set@[j]),
                decreases set@.len() - k,
            {
                let p = set[k];
                if !(-SCALE <= p.x.raw && p.x.raw <= SCALE && -SCALE <= p.y.raw && p.y.raw
                    <= SCALE && -SCALE <= p.z.raw && p.z.raw <= SCALE) {
                    return false;
                }
                if p.length_squared().raw > SCALE {
                    return false;
                }
                k = k + 1;
            }
            s = s + 1;
        }
        true
    }
}

} // verus!
