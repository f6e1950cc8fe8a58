//! The importance-sampling subsystem: probability densities over outgoing
//! directions, and how to draw directions from them.
//!
//! Densities are fixed-point values; each distribution's `value` is pinned
//! exactly to its stated density. Drawing is backed by the explicit random
//! stream, and each `generate` promises what holds of every outcome (which
//! hemisphere, which fallback), while the exact spread of the draws is a
//! sampling choice: in this integer model the drawn distribution
//! approximates the stated density, which trades variance, never the
//! arithmetic the contracts pin down.

use vstd::prelude::*;

use crate::color::{isqrt, isqrt_spec, FIX_ONE};
use crate::hittable::{prim_wf, Prim};
use crate::rng::{random_int, rng_step, RngState};
use crate::vec3::{is_unit_axis, vec3_wf, Point3, Vec3};

verus! {

/// The circle constant in fixed point.
pub const PI_FIX: u64 = 205887;

/// The uniform density on the sphere of directions, `1 / (4 * pi)`, in fixed
/// point.
pub const UNIFORM_SPHERE_DENSITY: u64 = 5215;

/// A sampleable probability distribution over directions.
pub trait Pdf {
    /// Validity of the distribution's own data.
    spec fn wf(&self) -> bool;

    /// The density this distribution reports for a direction.
    spec fn density(&self, direction: Vec3) -> u64;

    /// What is promised of every direction this distribution can draw.
    spec fn can_generate(&self, v: Vec3) -> bool;

    /// The draw as an exact function of the stream: the direction drawn and
    /// the stream state left behind.
    spec fn generate_spec(&self, s: u64) -> (Vec3, u64);

    /// The probability density of `direction`.
    fn value(&self, direction: &Vec3) -> (r: u64)
        requires
            self.wf(),
            vec3_wf(*direction),
        ensures
            r == self.density(*direction),
    ;

    /// Draw a direction from the distribution.
    fn generate(&self, rng: &mut RngState) -> (v: Vec3)
        requires
            self.wf(),
        ensures
            self.can_generate(v),
            vec3_wf(v),
            !(v.x == 0 && v.y == 0 && v.z == 0),
            (v, final(rng).s) == self.generate_spec(old(rng).s),
    ;
}

/// A small signed coordinate from one draw of the stream: the draw reduced
/// to `[0, 256)` and recentered on zero.
pub open spec fn small_coord(draw: u64) -> i64 {
    ((draw % 256) as i64 - 128) as i64
}

/// The uniform distribution over the sphere of directions, used for
/// isotropic scattering.
#[derive(Debug, Clone, Copy)]
pub struct SpherePdf;

impl SpherePdf {
    /// The uniform sphere distribution.
    pub fn new() -> (r: SpherePdf) {
        SpherePdf
    }
}

impl Pdf for SpherePdf {
    open spec fn wf(&self) -> bool {
        true
    }

    open spec fn density(&self, direction: Vec3) -> u64 {
        UNIFORM_SPHERE_DENSITY
    }

    open spec fn can_generate(&self, v: Vec3) -> bool {
        true
    }

    open spec fn generate_spec(&self, s: u64) -> (Vec3, u64) {
        let s1 = rng_step(s);
        let s2 = rng_step(s1);
        let s3 = rng_step(s2);
        let x = small_coord(s1 % 65536);
        let y = small_coord(s2 % 65536);
        let z = small_coord(s3 % 65536);
        if x == 0 && y == 0 && z == 0 {
            (Vec3 { x: 0, y: 0, z: 1 }, s3)
        } else {
            (Vec3 { x, y, z }, s3)
        }
    }

    fn value(&self, direction: &Vec3) -> (r: u64) {
        UNIFORM_SPHERE_DENSITY
    }

    fn generate(&self, rng: &mut RngState) -> (v: Vec3) {
        let x = (rng.next_unit() % 256) as i64 - 128;
        let y = (rng.next_unit() % 256) as i64 - 128;
        let z = (rng.next_unit() % 256) as i64 - 128;
        if x == 0 && y == 0 && z == 0 {
            Vec3 { x: 0, y: 0, z: 1 }
        } else {
            Vec3 { x, y, z }
        }
    }
}

/// The inner product of a unit axis normal with a direction: the (scaled)
/// cosine of the angle between them.
pub open spec fn axis_dot(w: Vec3, d: Vec3) -> int {
    w.x * d.x + w.y * d.y + w.z * d.z
}

/// The cosine-weighted hemisphere density around the unit axis `w`:
/// `max(0, cos theta) / pi`, in fixed point, with the cosine computed
/// against the direction's integer length (`isqrt` of its squared length)
/// and capped at one.
pub open spec fn cosine_density_spec(w: Vec3, d: Vec3) -> u64 {
    let dot = axis_dot(w, d);
    if dot <= 0 {
        0u64
    } else {
        let len = isqrt_spec(d.x * d.x + d.y * d.y + d.z * d.z);
        if len == 0 {
            0u64
        } else {
            let cosf = if dot * (FIX_ONE as int) / len > (FIX_ONE as int) {
                FIX_ONE as int
            } else {
                dot * (FIX_ONE as int) / len
            };
            (cosf * (FIX_ONE as int) / (PI_FIX as int)) as u64
        }
    }
}

/// The square of an in-budget coordinate stays well inside `i64`.
proof fn lemma_sq_bound(a: i64)
    by (nonlinear_arith)
    requires
        -0x4000_0000 <= a <= 0x4000_0000,
    ensures
        0 <= a * a <= 0x1000_0000_0000_0000,
{
}

/// Negating a direction negates its inner product with the normal.
proof fn lemma_axis_dot_neg(w: Vec3, v: Vec3, n: Vec3)
    by (nonlinear_arith)
    requires
        n.x == -v.x && n.y == -v.y && n.z == -v.z,
    ensures
        axis_dot(w, n) == -axis_dot(w, v),
{
}

/// The cosine-weighted distribution over the hemisphere around a surface
/// normal, used for diffuse surfaces.
#[derive(Debug, Clone, Copy)]
pub struct CosinePdf {
    pub w: Vec3,
}

impl CosinePdf {
    /// The cosine-weighted distribution around the unit axis normal `w`.
    pub fn new(w: Vec3) -> (r: CosinePdf)
        requires
            is_unit_axis(w),
        ensures
            r.w == w,
            r.wf(),
    {
        CosinePdf { w }
    }
}

impl Pdf for CosinePdf {
    open spec fn wf(&self) -> bool {
        is_unit_axis(self.w)
    }

    open spec fn density(&self, direction: Vec3) -> u64 {
        cosine_density_spec(self.w, direction)
    }

    open spec fn can_generate(&self, v: Vec3) -> bool {
        axis_dot(self.w, v) >= 0
    }

    open spec fn generate_spec(&self, s: u64) -> (Vec3, u64) {
        let s1 = rng_step(s);
        let s2 = rng_step(s1);
        let s3 = rng_step(s2);
        let x = small_coord(s1 % 65536);
        let y = small_coord(s2 % 65536);
        let z = small_coord(s3 % 65536);
        let cand = if x == 0 && y == 0 && z == 0 {
            self.w
        } else {
            Vec3 { x, y, z }
        };
        let v = if axis_dot(self.w, cand) >= 0 {
            cand
        } else {
            Vec3 { x: (-cand.x) as i64, y: (-cand.y) as i64, z: (-cand.z) as i64 }
        };
        (v, s3)
    }

    fn value(&self, direction: &Vec3) -> (r: u64) {
        let dot = Vec3::dot(&self.w, direction);
        if dot <= 0 {
            0
        } else {
            proof {
                lemma_sq_bound(direction.x);
                lemma_sq_bound(direction.y);
                lemma_sq_bound(direction.z);
            }
            let len2 = (direction.x * direction.x + direction.y * direction.y + direction.z
                * direction.z) as u64;
            let len = isqrt(len2);
            if len == 0 {
                0
            } else {
                let scaled = (dot as u64 as u128) * (FIX_ONE as u128) / (len as u128);
                let cosf = if scaled > FIX_ONE as u128 {
                    FIX_ONE
                } else {
                    scaled as u64
                };
                (cosf * FIX_ONE) / PI_FIX
            }
        }
    }

    fn generate(&self, rng: &mut RngState) -> (v: Vec3) {
        let x = (rng.next_unit() % 256) as i64 - 128;
        let y = (rng.next_unit() % 256) as i64 - 128;
        let z = (rng.next_unit() % 256) as i64 - 128;
        let cand = if x == 0 && y == 0 && z == 0 {
            self.w
        } else {
            Vec3 { x, y, z }
        };
        let dot = Vec3::dot(&self.w, &cand);
        if dot >= 0 {
            cand
        } else {
            let flipped = Vec3 { x: -cand.x, y: -cand.y, z: -cand.z };
            proof {
                lemma_axis_dot_neg(self.w, cand, flipped);
            }
            flipped
        }
    }
}

/// The distribution that samples directions toward a designated set of
/// light-emitting geometry. The box primitives of this crate are not usable
/// lights: they report zero density and the fixed fallback direction, as
/// non-light geometry does by default, so this distribution's density is
/// identically zero.
pub struct HittablePdf {
    pub objects: Vec<Prim>,
    pub origin: Point3,
}

impl HittablePdf {
    /// The distribution targeting `objects`, sampled from `origin`.
    pub fn new(objects: Vec<Prim>, origin: Point3) -> (r: HittablePdf)
        requires
            forall|j: int| 0 <= j < objects@.len() ==> prim_wf(#[trigger] objects@[j]),
        ensures
            r.objects@ == objects@,
            r.origin == origin,
            r.wf(),
    {
        HittablePdf { objects, origin }
    }
}

impl Pdf for HittablePdf {
    open spec fn wf(&self) -> bool {
        forall|j: int| 0 <= j < self.objects@.len() ==> prim_wf(#[trigger] self.objects@[j])
    }

    open spec fn density(&self, direction: Vec3) -> u64 {
        0
    }

    open spec fn can_generate(&self, v: Vec3) -> bool {
        v == (Vec3 { x: 1, y: 0, z: 0 })
    }

    open spec fn generate_spec(&self, s: u64) -> (Vec3, u64) {
        (
            Vec3 { x: 1, y: 0, z: 0 },
            if self.objects@.len() == 0 {
                s
            } else {
                rng_step(s)
            },
        )
    }

    fn value(&self, direction: &Vec3) -> (r: u64) {
        let n = self.objects.len();
        let mut acc: u64 = 0;
        let mut k: usize = 0;
        while k < n
            invariant
                k <= n == self.objects@.len(),
                self.wf(),
                acc == 0,
            decreases n - k,
        {
            let contribution = self.objects[k].pdf_value(&self.origin, direction);
            acc = acc + contribution;
            k = k + 1;
        }
        acc
    }

    fn generate(&self, rng: &mut RngState) -> (v: Vec3) {
        let n = self.objects.len();
        if n == 0 {
            Vec3 { x: 1, y: 0, z: 0 }
        } else {
            let idx = random_int(rng, 0, n - 1);
            self.objects[idx].random(&self.origin)
        }
    }
}

/// An even mixture of two distributions: the blend of "sample like the
/// material" and "sample toward the lights". Its density is exactly the
/// average of its two components' densities, and a draw comes from one
/// component chosen by an unbiased coin.
pub struct MixturePdf<A: Pdf, B: Pdf> {
    pub p0: A,
    pub p1: B,
}

impl<A: Pdf, B: Pdf> MixturePdf<A, B> {
    /// The even mixture of `p0` and `p1`.
    pub fn new(p0: A, p1: B) -> (r: MixturePdf<A, B>)
        requires
            p0.wf(),
            p1.wf(),
        ensures
            r.p0 == p0,
            r.p1 == p1,
            r.wf(),
    {
        MixturePdf { p0, p1 }
    }
}

impl<A: Pdf, B: Pdf> Pdf for MixturePdf<A, B> {
    open spec fn wf(&self) -> bool {
        self.p0.wf() && self.p1.wf()
    }

    /// The mixture's density is the arithmetic mean of the components'.
    open spec fn density(&self, direction: Vec3) -> u64 {
        (((self.p0.density(direction) + self.p1.density(direction)) / 2) as u64)
    }

    open spec fn can_generate(&self, v: Vec3) -> bool {
        self.p0.can_generate(v) || self.p1.can_generate(v)
    }

    /// The unbiased coin is the parity of the next stream step; it picks
    /// which component draws, on the advanced stream.
    open spec fn generate_spec(&self, s: u64) -> (Vec3, u64) {
        if rng_step(s) % 2 == 0 {
            self.p0.generate_spec(rng_step(s))
        } else {
            self.p1.generate_spec(rng_step(s))
        }
    }

    fn value(&self, direction: &Vec3) -> (r: u64) {
        let a = self.p0.value(direction);
        let b = self.p1.value(direction);
        (((a as u128) + (b as u128)) / 2) as u64
    }

    fn generate(&self, rng: &mut RngState) -> (v: Vec3) {
        if rng.next_bool() {
            self.p0.generate(rng)
        } else {
            self.p1.generate(rng)
        }
    }
}

} // verus!
