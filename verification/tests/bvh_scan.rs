//! The core correctness property of the spatial index: for any scene, the
//! hierarchy returns the same closest hit as a brute-force linear scan,
//! exercised on random scenes of varying object counts.

use rand::Rng;

use raytrace::bvh::Bvh;
use raytrace::hittable::{HittableList, Prim};
use raytrace::rat::Rat;
use raytrace::ray::{ParamRange, Ray};
use raytrace::vec3::Vec3;

fn full_range() -> ParamRange {
    ParamRange {
        min: Rat { num: 1, den: 1000 },
        max: Rat { num: 1_000_000_000, den: 1 },
    }
}

fn rat_eq(a: &Rat, b: &Rat) -> bool {
    a.num as i128 * b.den as i128 == b.num as i128 * a.den as i128
}

fn random_scene(rng: &mut impl Rng, count: usize) -> HittableList {
    let mut list = HittableList::new();
    for _ in 0..count {
        let x = rng.gen_range(-500i64..500);
        let y = rng.gen_range(-500i64..500);
        let z = rng.gen_range(-500i64..500);
        let dx = rng.gen_range(1i64..60);
        let dy = rng.gen_range(1i64..60);
        let dz = rng.gen_range(1i64..60);
        list.add(Prim::make_box(
            &Vec3::new(x, y, z),
            &Vec3::new(x + dx, y + dy, z + dz),
            0,
        ));
    }
    list
}

fn check_agreement(count: usize, rays: usize) {
    let mut rng = rand::thread_rng();
    let list = random_scene(&mut rng, count);
    let bvh = Bvh::new_from_list(&list);
    assert_eq!(bvh.prims.len(), list.objects.len());
    for _ in 0..rays {
        let orig = Vec3::new(
            rng.gen_range(-800i64..800),
            rng.gen_range(-800i64..800),
            rng.gen_range(-800i64..800),
        );
        let dir = Vec3::new(
            rng.gen_range(-20i64..21),
            rng.gen_range(-20i64..21),
            rng.gen_range(-20i64..21),
        );
        let r = Ray::new(orig, dir, 0);
        let range = full_range();
        let from_tree = bvh.hit(&r, &range);
        let from_scan = list.hit(&r, &range);
        match (&from_tree, &from_scan) {
            (None, None) => {}
            (Some(a), Some(b)) => {
                assert!(
                    rat_eq(&a.t, &b.t),
                    "closest parameters differ: {}/{} vs {}/{}",
                    a.t.num,
                    a.t.den,
                    b.t.num,
                    b.t.den
                );
            }
            _ => panic!("one of tree and scan hit, the other missed"),
        }
    }
}

#[test]
fn bvh_matches_scan_on_empty_scene() {
    check_agreement(0, 50);
}

#[test]
fn bvh_matches_scan_on_one_object() {
    check_agreement(1, 200);
}

#[test]
fn bvh_matches_scan_on_two_objects() {
    check_agreement(2, 200);
}

#[test]
fn bvh_matches_scan_on_three_objects() {
    check_agreement(3, 200);
}

#[test]
fn bvh_matches_scan_on_large_scene() {
    check_agreement(150, 300);
}

#[test]
fn bvh_keeps_the_scene_as_a_multiset() {
    let mut rng = rand::thread_rng();
    let list = random_scene(&mut rng, 40);
    let bvh = Bvh::new_from_list(&list);
    assert_eq!(bvh.prims.len(), 40);
    // Every original box appears in the tree's arena.
    for p in &list.objects {
        let found = bvh
            .prims
            .iter()
            .filter(|q| {
                q.bbox.x == p.bbox.x && q.bbox.y == p.bbox.y && q.bbox.z == p.bbox.z
            })
            .count();
        let in_list = list
            .objects
            .iter()
            .filter(|q| {
                q.bbox.x == p.bbox.x && q.bbox.y == p.bbox.y && q.bbox.z == p.bbox.z
            })
            .count();
        assert_eq!(found, in_list);
    }
}

/// Equal keys: identical and heavily overlapping boxes must not disturb the
/// tree-versus-scan agreement, ties included.
#[test]
fn bvh_matches_scan_with_duplicate_boxes() {
    let mut rng = rand::thread_rng();
    let mut list = HittableList::new();
    for _ in 0..10 {
        // The same box five times, plus shifted copies sharing faces.
        for k in 0..5i64 {
            list.add(Prim::make_box(
                &Vec3::new(0, 0, 0),
                &Vec3::new(40, 40, 40),
                k as usize,
            ));
            list.add(Prim::make_box(
                &Vec3::new(40 * k, 0, 0),
                &Vec3::new(40 * k + 40, 40, 40),
                0,
            ));
        }
    }
    let bvh = Bvh::new_from_list(&list);
    for _ in 0..300 {
        let r = Ray::new(
            Vec3::new(
                rng.gen_range(-100i64..300),
                rng.gen_range(-100i64..100),
                rng.gen_range(-100i64..100),
            ),
            Vec3::new(
                rng.gen_range(-5i64..6),
                rng.gen_range(-5i64..6),
                rng.gen_range(-5i64..6),
            ),
            0,
        );
        let range = full_range();
        match (bvh.hit(&r, &range), list.hit(&r, &range)) {
            (None, None) => {}
            (Some(a), Some(b)) => assert!(rat_eq(&a.t, &b.t)),
            _ => panic!("tree and scan disagree on a tied scene"),
        }
    }
}

#[test]
fn bvh_hit_on_concrete_scene() {
    let mut list = HittableList::new();
    list.add(Prim::make_box(&Vec3::new(8, -1, -1), &Vec3::new(9, 1, 1), 4));
    list.add(Prim::make_box(&Vec3::new(3, -1, -1), &Vec3::new(5, 1, 1), 9));
    list.add(Prim::make_box(&Vec3::new(-7, -1, -1), &Vec3::new(-6, 1, 1), 2));
    let bvh = Bvh::new_from_list(&list);
    let r = Ray::new(Vec3::new(0, 0, 0), Vec3::new(1, 0, 0), 0);
    let rec = bvh.hit(&r, &full_range()).expect("two boxes lie ahead");
    // The nearest box ahead enters at t = 3.
    assert_eq!(rec.t.num as i128, 3 * rec.t.den as i128);
    assert_eq!(rec.mat, 9);
    // Looking the other way finds the third box at t = 6.
    let back = Ray::new(Vec3::new(0, 0, 0), Vec3::new(-1, 0, 0), 0);
    let rec2 = bvh.hit(&back, &full_range()).expect("one box lies behind");
    assert_eq!(rec2.t.num as i128, 6 * rec2.t.den as i128);
    assert_eq!(rec2.mat, 2);
}
