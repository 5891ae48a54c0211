use ard::fixed::{CloseEq, Fx};
use ard::matrix::Matrix4;
use ard::ray::Ray3;
use ard::vector::Vector3;

fn v3(x: i64, y: i64, z: i64) -> Vector3 {
    Vector3 { x: Fx::from_int(x), y: Fx::from_int(y), z: Fx::from_int(z) }
}

fn quarter() -> Fx {
    Fx::from_ratio(1, 4)
}

#[test]
fn point_at_should_offset_by_parameter_multiplied_by_direction() {
    let ray = Ray3::new(v3(1, 0, 0), v3(1, 1, 1));
    assert!(v3(3, 2, 2).close_eq(&ray.point_at(Fx::from_int(2))));
    let back = ray.point_at(Fx::from_ratio(-1, 2));
    let expected = Vector3 {
        x: Fx::from_ratio(1, 2),
        y: Fx::from_ratio(-1, 2),
        z: Fx::from_ratio(-1, 2),
    };
    assert!(expected.close_eq(&back));
}

#[test]
fn right_most_matrix_applies_first() {
    let m = Matrix4::rotation_y(quarter()).times(&Matrix4::rotation_x(quarter()));
    let u = m.transform_vector3(v3(0, 1, 0));
    assert!(v3(1, 0, 0).close_eq(&u));
}

#[test]
fn positive_rotation_is_counterclockwise() {
    let mx = Matrix4::rotation_x(quarter());
    let ux = mx.transform_vector3(v3(0, 0, 1));
    assert!(v3(0, -1, 0).close_eq(&ux));
    let my = Matrix4::rotation_y(quarter());
    let uy = my.transform_vector3(v3(0, 0, 1));
    assert!(v3(1, 0, 0).close_eq(&uy));
    let mz = Matrix4::rotation_z(quarter());
    let uz = mz.transform_vector3(v3(1, 0, 0));
    assert!(v3(0, 1, 0).close_eq(&uz));
}

#[test]
fn transform_vector_does_not_translate() {
    let m = Matrix4::translation(Fx::one(), Fx::one(), Fx::one());
    let u = m.transform_vector3(v3(1, 1, 1));
    assert!(v3(1, 1, 1).close_eq(&u));
}

#[test]
fn quarter_turn_trig_is_exact() {
    assert_eq!(Fx::from_ratio(1, 4).sin_turns().raw, 65536);
    assert_eq!(Fx::zero().sin_turns().raw, 0);
    assert_eq!(Fx::zero().cos_turns().raw, 65536);
    assert_eq!(Fx::from_ratio(1, 2).sin_turns().raw, 0);
}

#[test]
fn square_root_of_a_quarter_is_a_half() {
    let r = ard::trig::root_frac(Fx::from_ratio(1, 4), 2);
    assert_eq!(r.raw, 32768);
}

#[test]
fn root_of_one_is_one() {
    let r = ard::trig::root_frac(Fx::one(), 5);
    assert_eq!(r.raw, 65536);
}
