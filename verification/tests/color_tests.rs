use ard::color::Color;
use ard::fixed::Fx;

fn color(r: Fx, g: Fx, b: Fx, a: Fx) -> Color {
    Color { r, g, b, a }
}

#[test]
fn to_rgba32_clamps_values_to_range() {
    let outside_range = color(
        Fx::from_ratio(11, 10),
        Fx::one(),
        Fx::one(),
        Fx::from_ratio(-1, 10),
    );
    assert_eq!(0x00ffffff, outside_range.to_rgba32());
}

#[test]
fn to_rgba32_byte_order() {
    let mixed = color(Fx::from_ratio(1, 10), Fx::from_ratio(1, 2), Fx::one(), Fx::one());
    assert_eq!(0xffff7f19, mixed.to_rgba32());
}

#[test]
fn color_to_rgba32_clamps_values_to_range() {
    let outside_range = color(
        Fx::from_ratio(11, 10),
        Fx::one(),
        Fx::one(),
        Fx::from_ratio(-1, 10),
    );
    assert_eq!(0x00ffffff, outside_range.to_rgba32());
}

#[test]
fn color_to_rgba32_byte_order() {
    let mixed = color(Fx::from_ratio(1, 10), Fx::from_ratio(1, 2), Fx::one(), Fx::one());
    assert_eq!(0xffff7f19, mixed.to_rgba32());
}

#[test]
fn black_and_white_pack_to_their_extremes() {
    assert_eq!(0xff000000, Color::black().to_rgba32());
    assert_eq!(0xffffffff, Color::white().to_rgba32());
}

#[test]
fn averaging_a_constant_sum_is_exact() {
    // Accumulate the same color four times and divide by four: the
    // channels come back unchanged (no accumulation drift).
    let c = color(Fx::from_ratio(3, 5), Fx::from_ratio(4, 5), Fx::one(), Fx::one());
    let mut sum = c;
    for _ in 0..3 {
        sum = sum.plus(c);
    }
    let avg = sum.div_by_count(4);
    assert_eq!(avg.r.raw, c.r.raw);
    assert_eq!(avg.g.raw, c.g.raw);
    assert_eq!(avg.b.raw, c.b.raw);
    assert_eq!(avg.a.raw, c.a.raw);
}

#[test]
fn attenuation_of_unit_colors_stays_unit() {
    let a = color(Fx::from_ratio(1, 2), Fx::one(), Fx::from_ratio(1, 4), Fx::one());
    let b = color(Fx::one(), Fx::from_ratio(1, 2), Fx::from_ratio(1, 2), Fx::one());
    let p = a.times(b);
    assert_eq!(p.r.raw, 32768);
    assert_eq!(p.g.raw, 32768);
    assert_eq!(p.b.raw, 8192);
    assert_eq!(p.a.raw, 65536);
}
