//! The importance-sampling subsystem and the random stream.

use rand::Rng;

use raytrace::hittable::{HittableList, Prim};
use raytrace::pdf::{
    CosinePdf, HittablePdf, MixturePdf, Pdf, SpherePdf, UNIFORM_SPHERE_DENSITY,
};
use raytrace::rng::{random_int, RngState};
use raytrace::vec3::Vec3;

#[test]
fn sphere_pdf_density_is_uniform() {
    let p = SpherePdf::new();
    assert_eq!(p.value(&Vec3::new(1, 0, 0)), UNIFORM_SPHERE_DENSITY);
    assert_eq!(p.value(&Vec3::new(0, -9, 4)), UNIFORM_SPHERE_DENSITY);
    // 1 / (4 pi) in fixed point.
    assert_eq!(UNIFORM_SPHERE_DENSITY, 5215);
}

#[test]
fn cosine_pdf_exact_values() {
    let p = CosinePdf::new(Vec3::new(0, 0, 1));
    // Aligned with the normal: density is 1/pi in fixed point.
    assert_eq!(p.value(&Vec3::new(0, 0, 1000)), 20860);
    // Behind the surface: zero.
    assert_eq!(p.value(&Vec3::new(0, 0, -1000)), 0);
    assert_eq!(p.value(&Vec3::new(500, 0, 0)), 0);
}

#[test]
fn cosine_pdf_generates_into_hemisphere() {
    let p = CosinePdf::new(Vec3::new(0, 1, 0));
    let mut rng = RngState::new(99);
    for _ in 0..500 {
        let v = p.generate(&mut rng);
        assert!(v.y >= 0);
        assert!(!(v.x == 0 && v.y == 0 && v.z == 0));
    }
}

/// Mixture density is exactly the average of the components' densities.
#[test]
fn mixture_value_is_exact_average() {
    let lights = HittablePdf::new(Vec::new(), Vec3::new(0, 0, 0));
    let mixed = MixturePdf::new(SpherePdf::new(), lights);
    // (5215 + 0) / 2, floored.
    assert_eq!(mixed.value(&Vec3::new(3, 1, -2)), 2607);

    let cosine = CosinePdf::new(Vec3::new(0, 0, 1));
    let mixed2 = MixturePdf::new(cosine, SpherePdf::new());
    let d = Vec3::new(0, 0, 1000);
    let expected = (cosine.value(&d) + SpherePdf::new().value(&d)) / 2;
    assert_eq!(mixed2.value(&d), expected);
}

/// The mixture draws each component in roughly equal proportion.
#[test]
fn mixture_generate_balances_components() {
    // The light component always hands back the fixed fallback direction,
    // the sphere component essentially never does, so the fallback count
    // measures the coin.
    let lights = HittablePdf::new(
        vec![Prim::make_box(&Vec3::new(0, 0, 0), &Vec3::new(2, 2, 2), 0)],
        Vec3::new(5, 5, 5),
    );
    let mixed = MixturePdf::new(SpherePdf::new(), lights);
    let mut rng = RngState::new(2024);
    let draws = 4000;
    let mut fallback = 0usize;
    for _ in 0..draws {
        let v = mixed.generate(&mut rng);
        if v == Vec3::new(1, 0, 0) {
            fallback += 1;
        }
    }
    let ratio = fallback as f64 / draws as f64;
    assert!(ratio > 0.42 && ratio < 0.58, "coin ratio {ratio}");
}

/// Monte Carlo normalization of the cosine-weighted density: sampling many
/// directions from the true cosine distribution and averaging f/pdf for
/// f = cos(theta)/pi converges to the analytic integral, one.
#[test]
fn cosine_pdf_normalizes_under_monte_carlo() {
    let p = CosinePdf::new(Vec3::new(0, 0, 1));
    let mut rng = rand::thread_rng();
    let n = 20000;
    let mut acc = 0.0f64;
    let mut used = 0usize;
    while used < n {
        let r1: f64 = rng.gen();
        let r2: f64 = rng.gen();
        let z = (1.0 - r2).sqrt();
        if z < 0.02 {
            continue;
        }
        let phi = 2.0 * std::f64::consts::PI * r1;
        let x = phi.cos() * r2.sqrt();
        let y = phi.sin() * r2.sqrt();
        let scale = 100000.0;
        let d = Vec3::new(
            (x * scale) as i64,
            (y * scale) as i64,
            (z * scale) as i64,
        );
        let pdf_fix = p.value(&d);
        if pdf_fix == 0 {
            continue;
        }
        let pdf = pdf_fix as f64 / 65536.0;
        let len = ((d.x * d.x + d.y * d.y + d.z * d.z) as f64).sqrt();
        let cos_theta = d.z as f64 / len;
        let f = cos_theta / std::f64::consts::PI;
        acc += f / pdf;
        used += 1;
    }
    let estimate = acc / used as f64;
    assert!(
        (estimate - 1.0).abs() < 0.02,
        "monte carlo estimate {estimate}"
    );
}

#[test]
fn hittable_pdf_of_boxes_is_zero() {
    let mut list = HittableList::new();
    list.add(Prim::make_box(&Vec3::new(0, 0, 0), &Vec3::new(2, 2, 2), 0));
    let p = HittablePdf::new(list.clone_objects(), Vec3::new(9, 9, 9));
    assert_eq!(p.value(&Vec3::new(-1, -1, -1)), 0);
    let mut rng = RngState::new(5);
    assert_eq!(p.generate(&mut rng), Vec3::new(1, 0, 0));
    assert_eq!(list.pdf_value(&Vec3::new(9, 9, 9), &Vec3::new(1, 1, 1)), 0);
    assert_eq!(list.random(&mut rng, &Vec3::new(9, 9, 9)), Vec3::new(1, 0, 0));
}

#[test]
fn rng_streams_are_deterministic() {
    let mut a = RngState::new(42);
    let mut b = RngState::new(42);
    for _ in 0..100 {
        assert_eq!(a.next_u64(), b.next_u64());
    }
    let mut c = RngState::for_pixel(7, 3, 9);
    let mut d = RngState::for_pixel(7, 3, 9);
    let mut e = RngState::for_pixel(7, 4, 9);
    let (x, y, z) = (c.next_u64(), d.next_u64(), e.next_u64());
    assert_eq!(x, y);
    assert_ne!(x, z);
}

#[test]
fn random_int_stays_in_range() {
    let mut rng = RngState::new(1234);
    for _ in 0..1000 {
        let v = random_int(&mut rng, 3, 17);
        assert!((3..=17).contains(&v));
    }
    let fixed = random_int(&mut rng, 5, 5);
    assert_eq!(fixed, 5);
}

#[test]
fn next_unit_is_a_fixed_point_unit_sample() {
    let mut rng = RngState::new(77);
    for _ in 0..1000 {
        assert!(rng.next_unit() < 65536);
    }
}
