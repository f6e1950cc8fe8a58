//! Colors, materials, the integrator, the tile scheduler and end-to-end
//! renders.

use raytrace::bvh::Bvh;
use raytrace::camera::Camera;
use raytrace::color::{
    double_linear_to_gamma, fix_add, fix_div, fix_mul, isqrt, write_color, Color, FIX_ONE,
};
use raytrace::hittable::{HitRecord, HittableList, Prim};
use raytrace::material::{
    DiffuseLight, EmptyMaterial, Isotropic, Lambertian, MaterialKind, Metal, ScatterPdf,
};
use raytrace::rat::Rat;
use raytrace::ray::Ray;
use raytrace::rng::RngState;
use raytrace::scheduler::{plan_tiles, Framebuffer, WorkerGate};
use raytrace::vec3::Vec3;

fn test_camera(width: usize, height: usize, background: Color) -> Camera {
    Camera {
        aspect_num: 1,
        aspect_den: 1,
        image_width: width,
        image_height: height,
        center: Vec3::new(0, 0, 0),
        pixel00_loc: Vec3::new(-((width as i64) * 2), (height as i64) * 2, -256),
        pixel_delta_u: Vec3::new(4, 0, 0),
        pixel_delta_v: Vec3::new(0, -4, 0),
        pixel_sub_u: Vec3::new(0, 0, 0),
        pixel_sub_v: Vec3::new(0, 0, 0),
        defocus_sub_u: Vec3::new(0, 0, 0),
        defocus_sub_v: Vec3::new(0, 0, 0),
        sample_per_pixel: 4,
        max_depth: 4,
        background,
    }
}

fn empty_world() -> Bvh {
    Bvh::new_from_list(&HittableList::new())
}

#[test]
fn fixed_point_arithmetic() {
    assert_eq!(fix_mul(FIX_ONE, FIX_ONE), FIX_ONE);
    assert_eq!(fix_mul(32768, 32768), 16384);
    assert_eq!(fix_add(10, 20), 30);
    assert_eq!(fix_add(u64::MAX, 1), u64::MAX);
    assert_eq!(fix_div(FIX_ONE, 2 * FIX_ONE), 32768);
    assert_eq!(fix_div(5, 0), 0);
}

#[test]
fn isqrt_exact_values() {
    assert_eq!(isqrt(0), 0);
    assert_eq!(isqrt(15), 3);
    assert_eq!(isqrt(16), 4);
    assert_eq!(isqrt(1_000_000), 1000);
    assert_eq!(isqrt(1u64 << 40), 1 << 20);
}

#[test]
fn gamma_encoding_is_square_root() {
    // 0.25 linear becomes 0.5 gamma.
    assert_eq!(double_linear_to_gamma(FIX_ONE / 4), FIX_ONE / 2);
    assert_eq!(double_linear_to_gamma(0), 0);
}

#[test]
fn write_color_gamma_bytes() {
    let black = Color::black();
    assert_eq!(write_color(&black), (0, 0, 0));
    let c = Color::new(32768, 16384, 65536);
    // sqrt(0.5) ~ 0.7071 -> 181; sqrt(0.25) = 0.5 -> 128; 1.0 clamps to 255.
    assert_eq!(write_color(&c), (181, 128, 255));
}

#[test]
fn color_channel_ops() {
    let a = Color::new(FIX_ONE, FIX_ONE / 2, 0);
    let b = Color::new(FIX_ONE / 2, FIX_ONE / 2, FIX_ONE);
    let s = a.add(&b);
    assert_eq!((s.r, s.g, s.b), (3 * FIX_ONE / 2, FIX_ONE, FIX_ONE));
    let m = a.mul(&b);
    assert_eq!((m.r, m.g, m.b), (FIX_ONE / 2, FIX_ONE / 4, 0));
    assert_eq!(a.max_component(), FIX_ONE);
    let avg = Color::new(12, 9, 3).averaged(3);
    assert_eq!((avg.r, avg.g, avg.b), (4, 3, 1));
}

fn sample_hit() -> HitRecord {
    HitRecord {
        t: Rat { num: 1, den: 1 },
        p: Vec3::new(0, 0, -10),
        normal: Vec3::new(0, 0, 1),
        front_face: true,
        mat: 0,
    }
}

#[test]
fn diffuse_light_emits_on_front_faces_only() {
    let light = MaterialKind::DiffuseLight(DiffuseLight::from_color(Color::new(9, 8, 7)));
    let mut rec = sample_hit();
    assert_eq!(light.emitted(&rec), Color::new(9, 8, 7));
    rec.front_face = false;
    assert_eq!(light.emitted(&rec), Color::black());
    let lamb = MaterialKind::Lambertian(Lambertian::new(Color::new(1, 1, 1)));
    assert_eq!(lamb.emitted(&sample_hit()), Color::black());
}

#[test]
fn lambertian_scatters_with_cosine_pdf() {
    let albedo = Color::new(100, 200, 300);
    let mat = MaterialKind::Lambertian(Lambertian::new(albedo));
    let r = Ray::new(Vec3::new(0, 0, 0), Vec3::new(0, 0, -1), 0);
    let srec = mat.scatter(&r, &sample_hit()).expect("diffuse surfaces scatter");
    assert_eq!(srec.attenuation, albedo);
    assert!(srec.skip_pdf_ray.is_none());
    match srec.pdf_ptr {
        Some(ScatterPdf::Cosine(c)) => assert_eq!(c.w, Vec3::new(0, 0, 1)),
        _ => panic!("expected a cosine distribution"),
    }
}

#[test]
fn metal_scatters_a_deterministic_reflection() {
    let mat = MaterialKind::Metal(Metal::new(Color::new(5, 5, 5)));
    let r = Ray::new(Vec3::new(0, 0, 0), Vec3::new(3, -1, -7), 2);
    let srec = mat.scatter(&r, &sample_hit()).expect("mirrors scatter");
    assert!(srec.pdf_ptr.is_none());
    let skip = srec.skip_pdf_ray.expect("mirrors bypass importance sampling");
    assert_eq!(skip.orig, Vec3::new(0, 0, -10));
    assert_eq!(skip.dir, Vec3::new(3, -1, 7));
    assert_eq!(skip.tm, 2);
}

#[test]
fn absorbing_materials_do_not_scatter() {
    let r = Ray::new(Vec3::new(0, 0, 0), Vec3::new(0, 0, -1), 0);
    let light = MaterialKind::DiffuseLight(DiffuseLight::from_color(Color::black()));
    assert!(light.scatter(&r, &sample_hit()).is_none());
    let empty = MaterialKind::Empty(EmptyMaterial);
    assert!(empty.scatter(&r, &sample_hit()).is_none());
}

#[test]
fn isotropic_scattering_density_is_uniform() {
    let mat = MaterialKind::Isotropic(Isotropic::new_with_color(Color::new(1, 2, 3)));
    let r = Ray::new(Vec3::new(0, 0, 0), Vec3::new(0, 0, -1), 0);
    let scattered = Ray::new(Vec3::new(0, 0, -10), Vec3::new(4, 4, 4), 0);
    assert_eq!(mat.scattering_pdf(&r, &sample_hit(), &scattered), 5215);
}

#[test]
fn ray_color_depth_exhausted_is_black() {
    let world = empty_world();
    let materials: Vec<MaterialKind> = Vec::new();
    let lights = HittableList::new();
    let mut rng = RngState::new(1);
    let r = Ray::new(Vec3::new(0, 0, 0), Vec3::new(0, 0, -1), 0);
    let c = Camera::ray_color(
        &r,
        &world,
        &materials,
        &lights,
        0,
        &Color::new(7, 7, 7),
        &mut rng,
    );
    assert_eq!(c, Color::black());
}

#[test]
fn ray_color_miss_is_background() {
    let world = empty_world();
    let materials: Vec<MaterialKind> = Vec::new();
    let lights = HittableList::new();
    let mut rng = RngState::new(1);
    let r = Ray::new(Vec3::new(0, 0, 0), Vec3::new(1, 2, 3), 0);
    let bg = Color::new(111, 222, 333);
    let c = Camera::ray_color(&r, &world, &materials, &lights, 8, &bg, &mut rng);
    assert_eq!(c, bg);
}

#[test]
fn ray_color_sees_an_emissive_wall() {
    // A light panel straight ahead: the estimate is exactly its emission.
    let mut list = HittableList::new();
    list.add(Prim::make_box(
        &Vec3::new(-100, -100, -300),
        &Vec3::new(100, 100, -200),
        0,
    ));
    let world = Bvh::new_from_list(&list);
    let materials = vec![MaterialKind::DiffuseLight(DiffuseLight::from_color(
        Color::new(65536, 32768, 16384),
    ))];
    let lights = HittableList::new();
    let mut rng = RngState::new(3);
    let r = Ray::new(Vec3::new(0, 0, 0), Vec3::new(0, 0, -1), 0);
    let c = Camera::ray_color(
        &r,
        &world,
        &materials,
        &lights,
        6,
        &Color::black(),
        &mut rng,
    );
    assert_eq!(c, Color::new(65536, 32768, 16384));
}

#[test]
fn camera_defaults_and_initialize() {
    let mut cam = Camera::new(16, 9, 400);
    assert_eq!(cam.sample_per_pixel, 10);
    assert_eq!(cam.max_depth, 10);
    cam.initialize();
    assert_eq!(cam.image_height, 225);
    // A degenerate ratio floors the height at one.
    let mut thin = Camera::new(1000, 1, 400);
    thin.initialize();
    assert_eq!(thin.image_height, 1);
}

#[test]
fn get_ray_is_deterministic_per_pixel_stream() {
    let cam = test_camera(16, 12, Color::black());
    let mut a = RngState::for_pixel(9, 3, 5);
    let mut b = RngState::for_pixel(9, 3, 5);
    let ra = cam.get_ray(3, 5, &mut a);
    let rb = cam.get_ray(3, 5, &mut b);
    assert_eq!(ra.orig, rb.orig);
    assert_eq!(ra.dir, rb.dir);
    assert_eq!(ra.tm, rb.tm);
    assert_eq!(ra.orig, cam.center);
}

#[test]
fn defocus_offsets_the_ray_origin_on_the_lens() {
    let mut cam = test_camera(16, 12, Color::black());
    cam.defocus_sub_u = Vec3::new(2, 0, 0);
    cam.defocus_sub_v = Vec3::new(0, 2, 0);
    let mut moved = 0usize;
    for seed in 0..64u64 {
        let mut rng = RngState::for_pixel(seed, 1, 1);
        let r = cam.get_ray(1, 1, &mut rng);
        // The origin is a lattice point of the lens disk around the center.
        let dx = r.orig.x - cam.center.x;
        let dy = r.orig.y - cam.center.y;
        assert_eq!(r.orig.z, cam.center.z);
        assert!(dx % 2 == 0 && dy % 2 == 0);
        let (a, b) = (dx / 2, dy / 2);
        assert!(a * a + b * b <= 64);
        if (dx, dy) != (0, 0) {
            moved += 1;
        }
    }
    assert!(moved > 0, "the lens sample never left the center");
    // With the lens off the origin is always the center.
    cam.defocus_sub_u = Vec3::new(0, 0, 0);
    cam.defocus_sub_v = Vec3::new(0, 0, 0);
    let mut rng = RngState::for_pixel(7, 1, 1);
    let r = cam.get_ray(1, 1, &mut rng);
    assert_eq!(r.orig, cam.center);
}

#[test]
fn worker_gate_admits_up_to_its_limit() {
    let mut gate = WorkerGate::new(2);
    assert!(gate.try_admit());
    assert!(gate.try_admit());
    assert!(!gate.try_admit());
    gate.complete();
    assert!(gate.try_admit());
    assert_eq!(gate.in_flight, 2);
}

#[test]
fn tiles_cover_every_pixel_exactly_once() {
    let (w, h) = (75usize, 33usize);
    let tiles = plan_tiles(w, h);
    assert_eq!(tiles.len(), 1024);
    let mut owners = vec![0u32; w * h];
    for t in &tiles {
        for y in t.y_min..t.y_max {
            for x in t.x_min..t.x_max {
                owners[y * w + x] += 1;
            }
        }
    }
    assert!(owners.iter().all(|&c| c == 1));
}

/// The same scene and seed produce the same image whatever order tiles are
/// spliced in: scheduling affects nothing but scheduling.
#[test]
fn tile_order_does_not_change_the_image() {
    let mut list = HittableList::new();
    list.add(Prim::make_box(
        &Vec3::new(-200, -200, -400),
        &Vec3::new(200, 200, -350),
        0,
    ));
    list.add(Prim::make_box(
        &Vec3::new(-60, -60, -340),
        &Vec3::new(60, 60, -300),
        1,
    ));
    let world = Bvh::new_from_list(&list);
    let materials = vec![
        MaterialKind::Lambertian(Lambertian::new(Color::new(30000, 20000, 10000))),
        MaterialKind::DiffuseLight(DiffuseLight::from_color(Color::new(65536, 65536, 65536))),
    ];
    let lights = HittableList::new();
    let cam = test_camera(24, 16, Color::new(5000, 5000, 8000));
    let seed = 424242;

    let tiles = plan_tiles(cam.image_width, cam.image_height);
    let mut forward = Framebuffer::new(cam.image_width, cam.image_height);
    for t in tiles.iter() {
        let buf = cam.render_tile(&world, &materials, &lights, t, seed);
        forward.write_tile(t, &buf);
    }
    let mut backward = Framebuffer::new(cam.image_width, cam.image_height);
    for t in tiles.iter().rev() {
        let buf = cam.render_tile(&world, &materials, &lights, t, seed);
        backward.write_tile(t, &buf);
    }
    assert_eq!(forward.data, backward.data);

    let sequential = cam.render(&world, &materials, &lights, seed);
    assert_eq!(sequential.data, forward.data);
}

/// An empty scene with background C renders every pixel exactly to the
/// gamma-encoded, clamped integer form of C.
#[test]
fn empty_scene_renders_background_exactly() {
    let bg = Color::new(32768, 16384, 65536);
    let cam = test_camera(16, 12, bg);
    let world = empty_world();
    let materials: Vec<MaterialKind> = Vec::new();
    let lights = HittableList::new();
    let fb = cam.render(&world, &materials, &lights, 7);
    assert_eq!(fb.data.len(), 16 * 12);
    for pixel in &fb.data {
        assert_eq!(*pixel, bg);
        assert_eq!(write_color(pixel), (181, 128, 255));
    }
}
