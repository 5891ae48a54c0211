use ard::fixed::{CloseEq, Fx};
use ard::sampler::{
    regular_base, unit_square_sample_to_hemisphere_sample, HemiSphereSampler, UnitSphereSampler,
    UnitSquareSampler, NUM_SAMPLE_SETS,
};
use ard::vector::Vector2;

fn half() -> Fx {
    Fx::from_ratio(1, 2)
}

#[test]
fn regular_sampler_one_per_axis() {
    let one_per_axis = UnitSquareSampler::regular_sampler(1);
    assert!(one_per_axis.samples.len() > 0);
    assert_eq!(1, one_per_axis.samples[0].len());
    assert!(half().close_eq(&one_per_axis.samples[0][0].x));
    assert!(half().close_eq(&one_per_axis.samples[0][0].y));
}

#[test]
fn sampler_regular_sampler_one_per_axis() {
    let base = regular_base(1);
    assert_eq!(1, base.len());
    assert!(half().close_eq(&base[0].x));
    assert!(half().close_eq(&base[0].y));
}

#[test]
fn regular_sampler_two_per_axis() {
    let base = regular_base(2);
    assert_eq!(4, base.len());
    let q = Fx::from_ratio(1, 4);
    let t = Fx::from_ratio(3, 4);
    assert!(q.close_eq(&base[0].x));
    assert!(q.close_eq(&base[0].y));
    assert!(t.close_eq(&base[1].x));
    assert!(q.close_eq(&base[1].y));
}

#[test]
fn regular_base_two_per_axis_is_the_exact_grid() {
    // The full row-major grid before shuffling, exactly.
    let base = regular_base(2);
    let raws: Vec<(i128, i128)> = base.iter().map(|p| (p.x.raw, p.y.raw)).collect();
    assert_eq!(
        raws,
        vec![(16384, 16384), (49152, 16384), (16384, 49152), (49152, 49152)]
    );
}

#[test]
fn shuffled_sets_keep_the_base_points() {
    // Every shuffled set holds exactly the base multiset; a shuffle
    // that altered or dropped points would fail here.
    let sampler = UnitSquareSampler::regular_sampler(2);
    assert_eq!(NUM_SAMPLE_SETS, sampler.samples.len());
    let mut expected: Vec<(i128, i128)> =
        regular_base(2).iter().map(|p| (p.x.raw, p.y.raw)).collect();
    expected.sort();
    for set in &sampler.samples {
        assert_eq!(4, set.len());
        let mut got: Vec<(i128, i128)> = set.iter().map(|p| (p.x.raw, p.y.raw)).collect();
        got.sort();
        assert_eq!(expected, got);
    }
}

#[test]
fn jittered_points_stay_in_the_unit_square() {
    let sampler = UnitSquareSampler::jittered_sampler(4);
    assert_eq!(NUM_SAMPLE_SETS, sampler.samples.len());
    for set in &sampler.samples {
        assert_eq!(16, set.len());
        for p in set {
            assert!(0 <= p.x.raw && p.x.raw <= 65536);
            assert!(0 <= p.y.raw && p.y.raw <= 65536);
        }
    }
}

#[test]
fn hemisphere_directions_stay_in_the_upper_unit_range() {
    // The cosine to the normal lies in [0, 1] and the other
    // components within one unit, for several exponents.
    for e in [0u32, 1, 10, 100] {
        for (sx, sy) in [(0i64, 0i64), (1, 1), (1, 3), (3, 1), (2, 3)] {
            let sample = Vector2 { x: Fx::from_ratio(sx, 4), y: Fx::from_ratio(sy, 4) };
            let d = unit_square_sample_to_hemisphere_sample(e, sample);
            assert!(0 <= d.z.raw && d.z.raw <= 65536);
            assert!(-65536 <= d.x.raw && d.x.raw <= 65536);
            assert!(-65536 <= d.y.raw && d.y.raw <= 65536);
        }
    }
}

#[test]
fn hemisphere_pole_for_bottom_edge_samples() {
    // A sample with y = 0 maps straight along the normal.
    let sample = Vector2 { x: Fx::from_ratio(1, 3), y: Fx::zero() };
    let d = unit_square_sample_to_hemisphere_sample(5, sample);
    assert_eq!(d.z.raw, 65536);
}

#[test]
fn hemisphere_sampler_wraps_the_square_sampler() {
    let sampler = HemiSphereSampler::regular_sampler(2, 1);
    assert_eq!(NUM_SAMPLE_SETS, sampler.samples.len());
    for set in &sampler.samples {
        assert_eq!(4, set.len());
        for p in set {
            assert!(0 <= p.z.raw && p.z.raw <= 65536);
        }
    }
}

#[test]
fn sphere_sampler_points_stay_inside_the_ball() {
    let sampler = UnitSphereSampler::random_sampler(32);
    assert_eq!(NUM_SAMPLE_SETS, sampler.samples.len());
    for set in &sampler.samples {
        assert_eq!(32, set.len());
        for p in set {
            assert!(p.length_squared().raw <= 65536);
        }
    }
}

#[test]
fn sample_lookup_wraps_both_indices() {
    let sampler = UnitSquareSampler::standard_sampler();
    let p = sampler.sample(7, 13);
    assert_eq!(p.x.raw, 32768);
    assert_eq!(p.y.raw, 32768);
}

#[test]
fn jittered_points_stay_inside_their_own_cells() {
    // Each base cell of the jittered stratification owns exactly one
    // point of every shuffled set: per cell column/row, counts match.
    let n = 4usize;
    let cell = 65536 / (n as i128);
    let sampler = UnitSquareSampler::jittered_sampler(n);
    for set in &sampler.samples {
        let mut counts = vec![0usize; n * n];
        for p in set {
            let cx = (p.x.raw / cell) as usize;
            let cy = (p.y.raw / cell) as usize;
            assert!(cx < n && cy < n);
            counts[cy * n + cx] += 1;
        }
        for c in counts {
            assert_eq!(c, 1);
        }
    }
}

#[test]
fn hemisphere_sets_are_images_of_the_grid() {
    // Every set of the regular hemisphere sampler holds exactly the
    // hemisphere images of the regular grid points, as a multiset.
    let sampler = HemiSphereSampler::regular_sampler(2, 3);
    let mut expected: Vec<(i128, i128, i128)> = regular_base(2)
        .iter()
        .map(|p| {
            let d = unit_square_sample_to_hemisphere_sample(3, *p);
            (d.x.raw, d.y.raw, d.z.raw)
        })
        .collect();
    expected.sort();
    for set in &sampler.samples {
        let mut got: Vec<(i128, i128, i128)> =
            set.iter().map(|d| (d.x.raw, d.y.raw, d.z.raw)).collect();
        got.sort();
        assert_eq!(expected, got);
    }
}

#[test]
fn sphere_standard_sampler_sits_at_the_origin() {
    let sampler = UnitSphereSampler::standard_sampler();
    let p = sampler.sample(5, 9);
    assert_eq!((p.x.raw, p.y.raw, p.z.raw), (0, 0, 0));
}
