use ard::camera::{Camera, OrthographicCamera, PinholeCamera};
use ard::color::Color;
use ard::fixed::Fx;
use ard::material::{Lambertian, Material, Metal, NormalMaterial, NullMaterial};
use ard::ray::Ray3;
use ard::sampler::{HemiSphereSampler, UnitSphereSampler, UnitSquareSampler};
use ard::shapes::{Hitable, Sphere};
use ard::trace::{nearest_hit, scene_check_wf, trace_ray, Renderer, RendererConfig};
use ard::vector::Vector3;
use ard::TraceContext;

fn v3(x: i64, y: i64, z: i64) -> Vector3 {
    Vector3 { x: Fx::from_int(x), y: Fx::from_int(y), z: Fx::from_int(z) }
}

fn ambient() -> Color {
    Color {
        r: Fx::from_ratio(3, 5),
        g: Fx::from_ratio(4, 5),
        b: Fx::one(),
        a: Fx::one(),
    }
}

fn null_sphere(cx: i64) -> Hitable {
    Hitable::Sphere(Sphere {
        center: v3(cx, 0, 0),
        radius: Fx::one(),
        material: Material::Null(NullMaterial::new()),
    })
}

fn lambertian_sphere(cx: i64) -> Hitable {
    Hitable::Sphere(Sphere {
        center: v3(cx, 0, 0),
        radius: Fx::one(),
        material: Material::Lambertian(Lambertian::new(
            HemiSphereSampler::standard_sampler(),
            &Color::white(),
        )),
    })
}

fn ctx() -> TraceContext {
    TraceContext { set_index: 0, sample_index: 0 }
}

fn x_ray() -> Ray3 {
    Ray3 { origin: Vector3::zero(), direction: v3(1, 0, 0) }
}

fn config(w: u32, h: u32) -> RendererConfig {
    RendererConfig {
        image_width: w,
        image_height: h,
        pixel_size: Fx::from_ratio(1, 100),
        pixel_sampler: UnitSquareSampler::standard_sampler(),
        max_trace_depth: 2,
        ambient_color: ambient(),
        num_render_threads: Some(1),
    }
}

fn eye_camera() -> Camera {
    Camera::Pinhole(PinholeCamera::new(
        &v3(0, 0, 5),
        &Vector3::zero(),
        &v3(0, 1, 0),
        Fx::from_int(4),
    ))
}

#[test]
fn a_miss_traces_to_the_ambient_color() {
    let objects: Vec<Hitable> = vec![null_sphere(2)];
    assert!(scene_check_wf(&objects));
    let ray = Ray3 { origin: Vector3::zero(), direction: v3(0, 1, 0) };
    let c = trace_ray(&objects, ambient(), &ctx(), &ray, 0, 8);
    assert_eq!(c.r.raw, ambient().r.raw);
    assert_eq!(c.g.raw, ambient().g.raw);
    assert_eq!(c.b.raw, ambient().b.raw);
}

#[test]
fn an_absorbing_hit_traces_to_black() {
    let objects: Vec<Hitable> = vec![null_sphere(2)];
    let c = trace_ray(&objects, ambient(), &ctx(), &x_ray(), 0, 8);
    assert_eq!(c.r.raw, 0);
    assert_eq!(c.g.raw, 0);
    assert_eq!(c.b.raw, 0);
}

#[test]
fn depth_exhaustion_returns_black_not_albedo() {
    // With a zero depth budget a scattering hit must come back black
    // and never the unattenuated albedo.
    let objects: Vec<Hitable> = vec![lambertian_sphere(2)];
    assert!(scene_check_wf(&objects));
    let c = trace_ray(&objects, ambient(), &ctx(), &x_ray(), 0, 0);
    assert_eq!(c.r.raw, 0);
    assert_eq!(c.g.raw, 0);
    assert_eq!(c.b.raw, 0);
}

#[test]
fn a_diffuse_bounce_picks_up_the_ambient_light() {
    // One bounce off a white diffuse sphere escapes to the ambient
    // color: result == ambient * albedo(= white) exactly.
    let objects: Vec<Hitable> = vec![lambertian_sphere(2)];
    let c = trace_ray(&objects, ambient(), &ctx(), &x_ray(), 0, 8);
    assert_eq!(c.r.raw, ambient().r.raw);
    assert_eq!(c.g.raw, ambient().g.raw);
    assert_eq!(c.b.raw, ambient().b.raw);
}

#[test]
fn normal_material_encodes_the_surface_normal() {
    let objects: Vec<Hitable> = vec![Hitable::Sphere(Sphere {
        center: v3(2, 0, 0),
        radius: Fx::one(),
        material: Material::Normal(NormalMaterial::new()),
    })];
    // The scatter continues along the normal, escapes, and the
    // ambient light is attenuated by |normal| = (1, 0, 0).
    let c = trace_ray(&objects, ambient(), &ctx(), &x_ray(), 0, 8);
    assert_eq!(c.r.raw, ambient().r.raw);
    assert_eq!(c.g.raw, 0);
    assert_eq!(c.b.raw, 0);
}

#[test]
fn a_mirror_metal_reflects_into_the_sky() {
    let metal = Material::Metal(Metal::new(
        UnitSphereSampler::standard_sampler(),
        &Color::white(),
        Fx::zero(),
    ));
    let objects: Vec<Hitable> = vec![Hitable::Sphere(Sphere {
        center: v3(2, 0, 0),
        radius: Fx::one(),
        material: metal,
    })];
    assert!(scene_check_wf(&objects));
    // Head-on reflection points straight back along -x, escapes, and
    // carries the ambient color through the white albedo.
    let c = trace_ray(&objects, ambient(), &ctx(), &x_ray(), 0, 8);
    assert_eq!(c.r.raw, ambient().r.raw);
    assert_eq!(c.g.raw, ambient().g.raw);
    assert_eq!(c.b.raw, ambient().b.raw);
}

#[test]
fn nearest_hit_prefers_the_closer_object() {
    let objects: Vec<Hitable> = vec![null_sphere(4), null_sphere(2)];
    let (isec, idx) = nearest_hit(&objects, &x_ray()).unwrap();
    assert_eq!(idx, 1);
    assert_eq!(isec.t.raw, 65536);
}

#[test]
fn every_pixel_of_an_empty_scene_is_the_ambient_color() {
    // Averaging identical ambient samples leaves the color channels
    // exactly ambient: no accumulation drift.
    let mut renderer = Renderer::new(config(4, 3));
    let camera = eye_camera();
    let objects: Vec<Hitable> = Vec::new();
    renderer.render(&camera, &objects);
    for y in 0..3u32 {
        for x in 0..4u32 {
            let p = renderer.image_buffer.pixel(x, y);
            assert_eq!(p.r.raw, ambient().r.raw);
            assert_eq!(p.g.raw, ambient().g.raw);
            assert_eq!(p.b.raw, ambient().b.raw);
        }
    }
}

#[test]
fn rows_assemble_to_the_same_image_in_any_order() {
    // The same rows written forward or backward give identical
    // buffers: pixel values depend only on their own coordinates and
    // offsets, so a row-distributing scheduler cannot change them.
    let renderer = Renderer::new(config(5, 4));
    let camera = eye_camera();
    let objects: Vec<Hitable> = vec![null_sphere(2)];
    let offsets: Vec<usize> = vec![7; 5];
    let rows: Vec<Vec<Color>> = (0..4u32)
        .map(|y| renderer.trace_line(&camera, &objects, y, 3, &offsets))
        .collect();

    let mut forward = ard::RenderBuffer::new(5, 4);
    for y in 0..4u32 {
        forward.set_pixel_line(y, &rows[y as usize]);
    }
    let mut backward = ard::RenderBuffer::new(5, 4);
    for y in (0..4u32).rev() {
        backward.set_pixel_line(y, &rows[y as usize]);
    }
    for y in 0..4u32 {
        for x in 0..5u32 {
            assert_eq!(forward.pixel(x, y), backward.pixel(x, y));
        }
    }
}

#[test]
fn render_is_deterministic_for_an_offset_free_scene() {
    // With the single-sample sampler and a scene whose response does
    // not read the sample offsets, two full renders agree pixel for
    // pixel even though each draws fresh random offsets.
    let camera = eye_camera();
    let objects: Vec<Hitable> = vec![null_sphere(2)];
    let mut first = Renderer::new(config(6, 5));
    first.render(&camera, &objects);
    let mut second = Renderer::new(config(6, 5));
    second.render(&camera, &objects);
    for y in 0..5u32 {
        for x in 0..6u32 {
            assert_eq!(first.image_buffer.pixel(x, y), second.image_buffer.pixel(x, y));
        }
    }
}

#[test]
fn renderer_defaults_to_at_least_one_worker() {
    let mut cfg = config(2, 2);
    cfg.num_render_threads = None;
    let renderer = Renderer::new(cfg);
    assert!(renderer.num_render_threads >= 1);
}

#[test]
fn renderer_config_checks_reject_zero_dimensions() {
    let mut cfg = config(2, 2);
    assert!(cfg.check_valid());
    cfg.image_width = 0;
    assert!(!cfg.check_valid());
}

#[test]
fn orthographic_rays_share_one_direction() {
    let cam = OrthographicCamera::new(&v3(0, 0, 5), &Vector3::zero(), &v3(0, 1, 0));
    let r0 = cam.generate_ray(Fx::zero(), Fx::zero());
    let r1 = cam.generate_ray(Fx::one(), Fx::from_int(2));
    assert_eq!(r0.direction, r1.direction);
    assert_eq!(r0.direction.z.raw, -65536);
    assert_eq!(r1.origin.x.raw, 65536);
    assert_eq!(r1.origin.y.raw, 2 * 65536);
}

#[test]
fn pinhole_center_ray_points_down_the_axis() {
    let cam = PinholeCamera::new(&v3(0, 0, 0), &v3(0, 0, -1), &v3(0, 1, 0), Fx::one());
    let r = cam.generate_ray(Fx::zero(), Fx::zero());
    assert_eq!(r.origin, Vector3::zero());
    assert_eq!(r.direction.x.raw, 0);
    assert_eq!(r.direction.y.raw, 0);
    assert_eq!(r.direction.z.raw, -65536);
}

#[test]
fn pixels_ignore_offsets_for_deterministic_samplers() {
    // With the single-sample pixel sampler and context-free
    // materials, a row traced under different random offsets is
    // identical pixel for pixel.
    let renderer = Renderer::new(config(6, 4));
    let camera = eye_camera();
    let objects: Vec<Hitable> = vec![null_sphere(2)];
    let row_a = renderer.trace_line(&camera, &objects, 2, 1, &vec![5; 6]);
    let row_b = renderer.trace_line(&camera, &objects, 2, 9001, &vec![77; 6]);
    assert_eq!(row_a, row_b);
}
