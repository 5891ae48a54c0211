use ard::fixed::Fx;
use ard::material::{Material, NullMaterial};
use ard::ray::Ray3;
use ard::shapes::{Cube, Hitable, Plane, Sphere};
use ard::vector::Vector3;

fn v3(x: i64, y: i64, z: i64) -> Vector3 {
    Vector3 { x: Fx::from_int(x), y: Fx::from_int(y), z: Fx::from_int(z) }
}

fn null_material() -> Material {
    Material::Null(NullMaterial::new())
}

#[test]
fn intersect() {
    let sphere = Sphere { center: v3(2, 0, 0), radius: Fx::one(), material: null_material() };
    let ray = Ray3 { origin: Vector3::zero(), direction: v3(1, 0, 0) };
    let hit = sphere.intersect(&ray);
    assert!(hit.is_some());
}

#[test]
fn shapes_intersect() {
    let sphere = Sphere { center: v3(2, 0, 0), radius: Fx::one(), material: null_material() };
    let ray = Ray3 { origin: Vector3::zero(), direction: v3(1, 0, 0) };
    let hit = sphere.intersect(&ray);
    assert!(hit.is_some());
}

#[test]
fn sphere_hit_distance_and_normal_are_exact() {
    // A ray from the origin along +x against a unit sphere at
    // (2, 0, 0) hits at t = 1 with normal (-1, 0, 0).
    let sphere = Sphere { center: v3(2, 0, 0), radius: Fx::one(), material: null_material() };
    let ray = Ray3 { origin: Vector3::zero(), direction: v3(1, 0, 0) };
    let hit = sphere.intersect(&ray).unwrap();
    assert_eq!(hit.t.raw, 65536);
    assert_eq!(hit.point.x.raw, 65536);
    assert_eq!(hit.point.y.raw, 0);
    assert_eq!(hit.point.z.raw, 0);
    assert_eq!(hit.normal.x.raw, -65536);
    assert_eq!(hit.normal.y.raw, 0);
    assert_eq!(hit.normal.z.raw, 0);
}

#[test]
fn sphere_miss_returns_none() {
    let sphere = Sphere { center: v3(2, 0, 0), radius: Fx::one(), material: null_material() };
    let ray = Ray3 { origin: Vector3::zero(), direction: v3(0, 1, 0) };
    assert!(sphere.intersect(&ray).is_none());
}

#[test]
fn cube_near_face_normal_opposes_the_ray() {
    // A ray along -x from outside an axis-aligned cube reports the
    // near-face normal pointing back toward the ray origin.
    let cube = Cube::new(v3(0, 0, 0), v3(2, 2, 2), Vector3::zero(), null_material());
    let ray = Ray3 { origin: v3(5, 0, 0), direction: v3(-1, 0, 0) };
    let (t, normal) = cube.intersection_with_normal(&ray).unwrap();
    assert_eq!(t.raw, 4 * 65536);
    assert_eq!(normal.x.raw, 65536);
    assert_eq!(normal.y.raw, 0);
    assert_eq!(normal.z.raw, 0);
}

#[test]
fn cube_normal_never_points_away_from_the_ray() {
    // From the other side the reported normal flips with the ray.
    let cube = Cube::new(v3(0, 0, 0), v3(2, 2, 2), Vector3::zero(), null_material());
    let ray = Ray3 { origin: v3(-5, 0, 0), direction: v3(1, 0, 0) };
    let (t, normal) = cube.intersection_with_normal(&ray).unwrap();
    assert_eq!(t.raw, 4 * 65536);
    assert_eq!(normal.x.raw, -65536);
}

#[test]
fn cube_intersect_reports_a_guarded_hit_point() {
    let cube = Cube::new(v3(0, 0, 0), v3(2, 2, 2), Vector3::zero(), null_material());
    let ray = Ray3 { origin: v3(5, 0, 0), direction: v3(-1, 0, 0) };
    let hit = cube.intersect(&ray).unwrap();
    assert_eq!(hit.t.raw, 4 * 65536);
    // The hit point sits a guard distance short of the face.
    assert!(hit.point.x.raw > 65536);
    assert!(hit.point.x.raw <= 65536 + 16);
}

#[test]
fn plane_parallel_ray_misses() {
    let plane = Plane { point: v3(0, 0, 0), normal: v3(0, 1, 0), material: null_material() };
    let ray = Ray3 { origin: v3(0, 5, 0), direction: v3(1, 0, 0) };
    assert!(plane.intersect(&ray).is_none());
}

#[test]
fn plane_hit_is_exact() {
    let plane = Plane { point: v3(0, 0, 0), normal: v3(0, 1, 0), material: null_material() };
    let ray = Ray3 { origin: v3(0, 5, 0), direction: v3(0, -1, 0) };
    let hit = plane.intersect(&ray).unwrap();
    assert_eq!(hit.t.raw, 5 * 65536);
    assert_eq!(hit.point.y.raw, 0);
    assert_eq!(hit.normal.y.raw, 65536);
}

#[test]
fn hitable_dispatch_matches_the_primitive() {
    let sphere = Sphere { center: v3(2, 0, 0), radius: Fx::one(), material: null_material() };
    let ray = Ray3 { origin: Vector3::zero(), direction: v3(1, 0, 0) };
    let direct = sphere.intersect(&ray).unwrap();
    let wrapped = Hitable::Sphere(sphere).intersect(&ray).unwrap();
    assert_eq!(direct.t.raw, wrapped.t.raw);
}

#[test]
fn rotated_cube_presents_a_rotated_face() {
    // A cube turned an eighth of a turn about y presents its edge to
    // a ray along -x: the hit comes nearer than the axis-aligned
    // face, and the reported normal still opposes the ray.
    let rotation = Vector3 {
        x: Fx::zero(),
        y: Fx::from_ratio(1, 8),
        z: Fx::zero(),
    };
    let cube = Cube::new(v3(0, 0, 0), v3(2, 2, 2), rotation, null_material());
    let ray = Ray3 { origin: v3(5, 0, 0), direction: v3(-1, 0, 0) };
    let (t, normal) = cube.intersection_with_normal(&ray).unwrap();
    // The corner lies sqrt(2) out, so the hit distance drops below
    // the unrotated 4.0.
    assert!(t.raw < 4 * 65536);
    assert!(t.raw > 3 * 65536);
    // The normal opposes the ray direction.
    assert!(normal.x.raw > 0);
}
