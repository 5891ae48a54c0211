use ard::fixed::{CloseEq, Fx};
use ard::vector::Vector3;

fn v3(x: i64, y: i64, z: i64) -> Vector3 {
    Vector3 { x: Fx::from_int(x), y: Fx::from_int(y), z: Fx::from_int(z) }
}

fn v3r(x: (i64, i64), y: (i64, i64), z: (i64, i64)) -> Vector3 {
    Vector3 {
        x: Fx::from_ratio(x.0, x.1),
        y: Fx::from_ratio(y.0, y.1),
        z: Fx::from_ratio(z.0, z.1),
    }
}

#[test]
fn add_traits() {
    let u = v3(1, 2, 3);
    let v = v3(2, 3, 4);
    let result = v3(3, 5, 7);
    assert!(result.close_eq(&u.plus(v)));
    let mut actual = u;
    actual = actual.plus(v);
    assert!(result.close_eq(&actual));
}

#[test]
fn sub_traits() {
    let u = v3(1, 2, 3);
    let v = v3r((1, 2), (1, 1), (3, 2));
    let result = v3r((1, 2), (1, 1), (3, 2));
    assert!(result.close_eq(&u.minus(v)));
    let mut actual = u;
    actual = actual.minus(v);
    assert!(result.close_eq(&actual));
}

#[test]
fn length_tests() {
    assert!(Fx::one().close_eq(&v3(1, 0, 0).length()));
}

#[test]
fn normalize_self() {
    let mut v = v3(1, 2, 3);
    let ok = v.normalize();
    assert!(ok);
    assert!(Fx::one().close_eq(&v.length()));
}

#[test]
fn normalized_returns_unit_length_vector() {
    let v = v3(1, 1, 1);
    let vn = v.normalized().unwrap();
    assert!(Fx::one().close_eq(&vn.length()));
}

#[test]
fn normalized_point_in_same_direction() {
    let v = v3(1, 2, 3);
    let len = v.length();
    let vn = v.normalized().unwrap();
    assert!(v.close_eq(&vn.scaled(len)));
}

#[test]
fn cross_adherse_to_right_hand_side_rul() {
    let u = v3(1, 0, 0);
    let v = v3(0, 1, 0);
    assert!(v3(0, 0, 1).close_eq(&u.cross(&v)));
}

#[test]
fn normalized_of_zero_vector_declines() {
    assert!(v3(0, 0, 0).normalized().is_none());
}

#[test]
fn reflect_mirrors_about_the_normal() {
    // A downward diagonal reflects off a floor into an upward one.
    let incoming = v3(1, -1, 0);
    let normal = v3(0, 1, 0);
    let reflected = incoming.reflect(&normal);
    assert!(v3(1, 1, 0).close_eq(&reflected));
}
