//! Interval, box and primitive behaviour on concrete values.

use raytrace::aabb::Aabb;
use raytrace::hittable::{HittableList, Prim};
use raytrace::interval::Interval;
use raytrace::rat::Rat;
use raytrace::ray::{ParamRange, Ray};
use raytrace::vec3::Vec3;

fn full_range() -> ParamRange {
    ParamRange {
        min: Rat { num: -1_000_000_000, den: 1 },
        max: Rat { num: 1_000_000_000, den: 1 },
    }
}

#[test]
fn interval_basics() {
    let iv = Interval::new(-5, 10);
    assert_eq!(iv.size(), 15);
    assert!(iv.contains(-5));
    assert!(iv.contains(10));
    assert!(!iv.contains(11));
    assert!(iv.surrounds(0));
    assert!(!iv.surrounds(-5));
    assert_eq!(iv.clamp(-7), -5);
    assert_eq!(iv.clamp(12), 10);
    assert_eq!(iv.clamp(3), 3);
    let ex = iv.expand(2);
    assert_eq!(ex.min, -6);
    assert_eq!(ex.max, 11);
}

#[test]
fn interval_union_is_inclusive() {
    let a = Interval::new(0, 4);
    let b = Interval::new(-3, 2);
    let u = Interval::from_two(&a, &b);
    assert_eq!(u.min, -3);
    assert_eq!(u.max, 4);
    let e = Interval::empty();
    let w = Interval::from_two(&e, &a);
    assert_eq!(w.min, 0);
    assert_eq!(w.max, 4);
}

/// Box union is inclusive: the union contains each input box.
#[test]
fn aabb_union_contains_both() {
    let a = Aabb::new(Interval::new(0, 2), Interval::new(0, 3), Interval::new(-1, 1));
    let b = Aabb::new(Interval::new(-4, 1), Interval::new(2, 5), Interval::new(0, 6));
    let u = Aabb::surrounding_box(&a, &b);
    for (outer, inner) in [(&u, &a), (&u, &b)] {
        assert!(outer.x.min <= inner.x.min && inner.x.max <= outer.x.max);
        assert!(outer.y.min <= inner.y.min && inner.y.max <= outer.y.max);
        assert!(outer.z.min <= inner.z.min && inner.z.max <= outer.z.max);
    }
}

#[test]
fn aabb_padding_avoids_degenerate_axes() {
    let b = Aabb::new(Interval::new(5, 5), Interval::new(0, 10), Interval::new(2, 2));
    assert_eq!(b.x.min, 4);
    assert_eq!(b.x.max, 6);
    assert_eq!(b.y.min, 0);
    assert_eq!(b.y.max, 10);
    assert_eq!(b.z.min, 1);
    assert_eq!(b.z.max, 3);
}

#[test]
fn aabb_longest_axis_with_tie_breaks() {
    let b = Aabb::new(Interval::new(0, 10), Interval::new(0, 4), Interval::new(0, 4));
    assert_eq!(b.longest_axis(), 0);
    let t = Aabb::new(Interval::new(0, 4), Interval::new(0, 4), Interval::new(0, 4));
    // Exact ties go to z.
    assert_eq!(t.longest_axis(), 2);
    let y = Aabb::new(Interval::new(0, 3), Interval::new(0, 9), Interval::new(0, 4));
    assert_eq!(y.longest_axis(), 1);
}

#[test]
fn aabb_hit_on_axis_ray() {
    let b = Aabb::new(Interval::new(1, 3), Interval::new(1, 3), Interval::new(1, 3));
    let hit_ray = Ray::new(Vec3::new(0, 2, 2), Vec3::new(1, 0, 0), 0);
    assert!(b.hit(&hit_ray, &full_range()));
    let miss_ray = Ray::new(Vec3::new(0, 5, 2), Vec3::new(1, 0, 0), 0);
    assert!(!b.hit(&miss_ray, &full_range()));
}

#[test]
fn aabb_hit_zero_direction_axis_policy() {
    let b = Aabb::new(Interval::new(1, 3), Interval::new(1, 3), Interval::new(1, 3));
    // Origin inside the y and z slabs, moving along x: hit.
    let inside = Ray::new(Vec3::new(-5, 2, 2), Vec3::new(1, 0, 0), 0);
    assert!(b.hit(&inside, &full_range()));
    // Origin outside the y slab with zero y direction: the axis rules it out.
    let outside = Ray::new(Vec3::new(-5, 7, 2), Vec3::new(1, 0, 0), 0);
    assert!(!b.hit(&outside, &full_range()));
}

/// Slab-test soundness, checked by sampling: when the hit test reports a
/// miss over a range, no sampled parameter of that range puts the ray
/// strictly inside the box's interior.
#[test]
fn slab_miss_has_no_interior_point_sampled() {
    let boxes = [
        Aabb::new(Interval::new(10, 20), Interval::new(10, 20), Interval::new(10, 20)),
        Aabb::new(Interval::new(-8, -2), Interval::new(0, 40), Interval::new(3, 9)),
    ];
    let rays = [
        Ray::new(Vec3::new(0, 0, 0), Vec3::new(5, 1, 0), 0),
        Ray::new(Vec3::new(30, 0, 0), Vec3::new(1, 2, 3), 0),
        Ray::new(Vec3::new(0, 50, 0), Vec3::new(0, 1, 0), 0),
    ];
    let range = full_range();
    for b in &boxes {
        for r in &rays {
            if b.hit(r, &range) {
                continue;
            }
            // Sample parameters t = k/100 across the range and confirm the
            // point is never strictly inside on all three axes at once.
            for k in -5000..5000i64 {
                let tn = k;
                let td = 100i64;
                let mut inside_all = true;
                for (iv, o, d) in [
                    (b.x, r.orig.x, r.dir.x),
                    (b.y, r.orig.y, r.dir.y),
                    (b.z, r.orig.z, r.dir.z),
                ] {
                    let coord_num = o as i128 * td as i128 + tn as i128 * d as i128;
                    let strictly_inside = (iv.min as i128 * td as i128) < coord_num
                        && coord_num < (iv.max as i128 * td as i128);
                    inside_all = inside_all && strictly_inside;
                }
                assert!(!inside_all, "missed box entered at t={}/{}", tn, td);
            }
        }
    }
}

#[test]
fn prim_hit_reports_entry_parameter_and_normal() {
    let p = Prim::make_box(&Vec3::new(1, 1, 1), &Vec3::new(3, 3, 3), 7);
    let r = Ray::new(Vec3::new(0, 2, 2), Vec3::new(1, 0, 0), 0);
    let rec = p.hit(&r, &full_range()).expect("the ray enters the box");
    // Entry at t = 1 exactly.
    assert_eq!(rec.t.num as i128 * 1, 1 * rec.t.den as i128);
    assert_eq!(rec.normal, Vec3::new(-1, 0, 0));
    assert!(rec.front_face);
    assert_eq!(rec.mat, 7);
    assert_eq!(rec.p, Vec3::new(1, 2, 2));
}

#[test]
fn prim_miss_behind_origin() {
    let p = Prim::make_box(&Vec3::new(1, 1, 1), &Vec3::new(3, 3, 3), 0);
    // The box is behind this ray.
    let r = Ray::new(Vec3::new(10, 2, 2), Vec3::new(1, 0, 0), 0);
    let window = ParamRange { min: Rat { num: 0, den: 1 }, max: Rat { num: 1000, den: 1 } };
    assert!(p.hit(&r, &window).is_none());
}

#[test]
fn prim_translated_moves_its_box() {
    let p = Prim::make_box(&Vec3::new(0, 0, 0), &Vec3::new(2, 2, 2), 3);
    let q = p.translated(&Vec3::new(10, -5, 1));
    assert_eq!(q.bbox.x.min, 10);
    assert_eq!(q.bbox.x.max, 12);
    assert_eq!(q.bbox.y.min, -5);
    assert_eq!(q.bbox.y.max, -3);
    assert_eq!(q.bbox.z.min, 1);
    assert_eq!(q.bbox.z.max, 3);
    assert_eq!(q.mat, 3);
}

#[test]
fn list_tracks_union_box() {
    let mut list = HittableList::new();
    list.add(Prim::make_box(&Vec3::new(0, 0, 0), &Vec3::new(2, 2, 2), 0));
    list.add(Prim::make_box(&Vec3::new(5, -3, 1), &Vec3::new(6, 4, 9), 0));
    let bb = list.bounding_box();
    assert!(bb.x.min <= 0 && bb.x.max >= 6);
    assert!(bb.y.min <= -3 && bb.y.max >= 4);
    assert!(bb.z.min <= 0 && bb.z.max >= 9);
    list.clear();
    assert_eq!(list.objects.len(), 0);
}

#[test]
fn list_hit_returns_nearest() {
    let mut list = HittableList::new();
    list.add(Prim::make_box(&Vec3::new(10, -1, -1), &Vec3::new(12, 1, 1), 1));
    list.add(Prim::make_box(&Vec3::new(4, -1, -1), &Vec3::new(6, 1, 1), 2));
    let r = Ray::new(Vec3::new(0, 0, 0), Vec3::new(1, 0, 0), 0);
    let rec = list.hit(&r, &full_range()).expect("both boxes straddle the ray");
    // The nearer box (entry t = 4) wins.
    assert_eq!(rec.t.num as i128, 4 * rec.t.den as i128);
    assert_eq!(rec.mat, 2);
}

#[test]
fn vec3_ops() {
    let a = Vec3::new(1, 2, 3);
    let b = Vec3::new(-4, 5, 6);
    assert_eq!(Vec3::dot(&a, &b), -4 + 10 + 18);
    let c = Vec3::cross(&a, &b);
    assert_eq!(c, Vec3::new(2 * 6 - 3 * 5, 3 * (-4) - 1 * 6, 1 * 5 - 2 * (-4)));
    assert_eq!(a.add(&b), Vec3::new(-3, 7, 9));
    assert_eq!(a.sub(&b), Vec3::new(5, -3, -3));
    assert_eq!(a.neg(), Vec3::new(-1, -2, -3));
    assert!(Vec3::new(0, 0, 0).near_zero());
    assert!(!a.near_zero());
}

#[test]
fn reflect_about_axis_normal_flips_one_component() {
    let v = Vec3::new(1, -2, 3);
    let up = Vec3::new(0, 1, 0);
    assert_eq!(Vec3::reflect(&v, &up), Vec3::new(1, 2, 3));
    let xn = Vec3::new(-1, 0, 0);
    assert_eq!(Vec3::reflect(&v, &xn), Vec3::new(-1, -2, 3));
}

#[test]
fn ray_at_evaluates_exactly() {
    let r = Ray::new(Vec3::new(1, 2, 3), Vec3::new(2, 0, -1), 5);
    assert_eq!(r.time(), 5);
    let t = Rat { num: 3, den: 2 };
    let p = r.at(&t);
    // 1 + 3/2 * 2 = 4; 2; 3 - 3/2 = 3/2.
    assert_eq!(p.den, 2);
    assert_eq!(p.xn, 8);
    assert_eq!(p.yn, 4);
    assert_eq!(p.zn, 3);
}

#[test]
fn set_face_normal_orients_against_the_ray() {
    let p = Prim::make_box(&Vec3::new(1, 1, 1), &Vec3::new(3, 3, 3), 0);
    let r = Ray::new(Vec3::new(0, 2, 2), Vec3::new(1, 0, 0), 0);
    let mut rec = p.hit(&r, &full_range()).expect("the ray enters the box");
    // An outward normal facing the ray marks a front face and is kept.
    rec.set_face_normal(&r, &Vec3::new(-1, 0, 0));
    assert!(rec.front_face);
    assert_eq!(rec.normal, Vec3::new(-1, 0, 0));
    // An outward normal along the ray marks a back face and is flipped.
    rec.set_face_normal(&r, &Vec3::new(1, 0, 0));
    assert!(!rec.front_face);
    assert_eq!(rec.normal, Vec3::new(-1, 0, 0));
}

#[test]
fn rat_ordering() {
    let a = Rat { num: 1, den: 3 };
    let b = Rat { num: 2, den: 5 };
    assert!(a.lt(&b));
    assert!(a.le(&b));
    assert!(!b.le(&a));
    let c = Rat { num: 2, den: 6 };
    assert!(a.eq_val(&c));
    assert_eq!(a.max(b).num, 2);
    assert_eq!(a.min(b).num, 1);
}
