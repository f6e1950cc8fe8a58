//! Core machinery of a Monte Carlo path-tracing renderer, on exact arithmetic.
//!
//! Scene coordinates are integers, ray parameters are exact rationals, and
//! radiance is carried in fixed-point, so every algorithm here — the bounding
//! volume hierarchy, the slab test, the importance-sampling distributions, the
//! integrator and the tile scheduler — has a contract that pins its result down
//! exactly. Floating-point concerns (trigonometric camera setup, irrational
//! primitive hit-tests) live outside this crate, behind the same capability
//! interfaces the algorithms are specified against.

pub mod aabb;
pub mod bvh;
pub mod camera;
pub mod color;
pub mod hittable;
pub mod interval;
pub mod material;
pub mod pdf;
pub mod rat;
pub mod rng;
pub mod ray;
pub mod scheduler;
pub mod vec3;

pub use aabb::Aabb;
pub use bvh::Bvh;
pub use camera::Camera;
pub use color::Color;
pub use hittable::{HitRecord, HittableList, Prim};
pub use interval::Interval;
pub use rat::Rat;
pub use ray::Ray;
pub use vec3::{Point3, Vec3};
