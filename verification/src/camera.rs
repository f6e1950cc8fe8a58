//! The camera and the path-tracing integrator, and the renderer that drives
//! them tile by tile.
//!
//! The camera holds the integer viewport basis (the trigonometric setup that
//! derives such a basis from a field of view lives outside this crate) and
//! casts jittered rays through pixels. `ray_color` estimates radiance along
//! a ray: recursion bounded by depth, emission plus importance-sampled
//! scattering weighted by the material's own density over the mixture
//! density, with stochastic termination kept unbiased by dividing through
//! by the survival probability, and vanishing densities guarded to zero
//! contribution. `render` fills the framebuffer tile by tile from per-pixel
//! random streams, so the image is a function of scene and seed alone.

use vstd::prelude::*;
use vstd::arithmetic::div_mod::lemma_div_multiples_vanish;

use crate::bvh::{bvh_hit_spec, bvh_wf, Bvh};
use crate::color::{color_add_spec, color_avg_spec, color_div_spec, color_mul_spec,
    color_scale_spec, Color};
use crate::hittable::{list_wf, prim_hits_at, HittableList};
use crate::material::{
    absorbing, emitted_spec, scatter_attenuation, scattering_pdf_spec, MaterialKind, ScatterPdf,
};
use crate::pdf::{CosinePdf, HittablePdf, MixturePdf, Pdf, SpherePdf};
use crate::rat::Rat;
use crate::ray::{ray_wf, ParamRange, Ray};
use crate::rng::{rng_step, RngState};
use crate::scheduler::{
    tile_buf_idx,
    fb_wf, idx_in_tile, owner_tile, planned_tile, plan_tiles, tile_area, tile_wf,
    lemma_planned_tile_wf, lemma_tile_cover_unique, Framebuffer, Tile, HEIGHT_PARTITION,
    IMAGE_LIMIT, WIDTH_PARTITION,
};
use crate::vec3::{reflect_spec, vec3_wf, Point3, Vec3};

verus! {

/// The parameter window of every scene intersection the integrator makes: a
/// small positive start (shadow-acne offset) up to effectively forever.
pub open spec fn integrator_range() -> ParamRange {
    ParamRange { min: Rat { num: 1, den: 1000 }, max: Rat { num: 0x4000_0000_0000_0000, den: 1 } }
}

/// The integrator's parameter window, executably.
fn make_integrator_range() -> (r: ParamRange)
    ensures
        r == integrator_range(),
{
    ParamRange { min: Rat { num: 1, den: 1000 }, max: Rat { num: 0x4000_0000_0000_0000, den: 1 } }
}

/// Every primitive's material handle points into the material arena.
pub open spec fn scene_wf(world: Bvh, materials: Seq<MaterialKind>) -> bool {
    forall|j: int|
        0 <= j < world.prims@.len() ==> (#[trigger] world.prims@[j]).mat < materials.len()
}

/// The survival probability of stochastic termination: the largest
/// attenuation channel, capped at 0.95 in fixed point.
pub open spec fn survival_p(attenuation: Color) -> u64 {
    let m = if attenuation.r >= attenuation.g && attenuation.r >= attenuation.b {
        attenuation.r
    } else if attenuation.g >= attenuation.b {
        attenuation.g
    } else {
        attenuation.b
    };
    if m < 62259 {
        m
    } else {
        62259u64
    }
}

/// The camera: image geometry, the integer viewport basis rays are cast
/// through, sampling and recursion budgets, and the background radiance.
pub struct Camera {
    pub aspect_num: i64,
    pub aspect_den: i64,
    pub image_width: usize,
    pub image_height: usize,
    pub center: Point3,
    pub pixel00_loc: Point3,
    pub pixel_delta_u: Vec3,
    pub pixel_delta_v: Vec3,
    pub pixel_sub_u: Vec3,
    pub pixel_sub_v: Vec3,
    pub defocus_sub_u: Vec3,
    pub defocus_sub_v: Vec3,
    pub sample_per_pixel: usize,
    pub max_depth: usize,
    pub background: Color,
}

/// A vector whose components fit a viewport anchor.
pub open spec fn anchor_sized(v: Vec3) -> bool {
    &&& -0x1000_0000 <= v.x <= 0x1000_0000
    &&& -0x1000_0000 <= v.y <= 0x1000_0000
    &&& -0x1000_0000 <= v.z <= 0x1000_0000
}

/// A vector whose components fit a per-pixel (or sub-pixel) step.
pub open spec fn step_sized(v: Vec3) -> bool {
    &&& -256 <= v.x <= 256
    &&& -256 <= v.y <= 256
    &&& -256 <= v.z <= 256
}

/// Validity of a camera configuration.
pub open spec fn camera_wf(c: Camera) -> bool {
    &&& 1 <= c.image_width <= IMAGE_LIMIT
    &&& 1 <= c.image_height <= IMAGE_LIMIT
    &&& anchor_sized(c.center)
    &&& anchor_sized(c.pixel00_loc)
    &&& step_sized(c.pixel_delta_u)
    &&& step_sized(c.pixel_delta_v)
    &&& step_sized(c.pixel_sub_u)
    &&& step_sized(c.pixel_sub_v)
    &&& step_sized(c.defocus_sub_u)
    &&& step_sized(c.defocus_sub_v)
    &&& 1 <= c.sample_per_pixel <= 65536
    &&& 1 <= c.max_depth <= 64
    &&& c.background.r <= 0x1_0000_0000
    &&& c.background.g <= 0x1_0000_0000
    &&& c.background.b <= 0x1_0000_0000
}

/// One component of a jittered camera ray's direction, with its bound.
fn ray_component(p00: i64, du: i64, dv: i64, su: i64, sv: i64, cen: i64, i: i64, j: i64, jx: i64, jy: i64) -> (r: i64)
    requires
        -0x1000_0000 <= p00 <= 0x1000_0000,
        -0x1000_1000 <= cen <= 0x1000_1000,
        -256 <= du <= 256,
        -256 <= dv <= 256,
        -256 <= su <= 256,
        -256 <= sv <= 256,
        0 <= i <= 30000,
        0 <= j <= 30000,
        0 <= jx < 16,
        0 <= jy < 16,
    ensures
        r == p00 + i * du + j * dv + jx * su + jy * sv - cen,
        -0x4000_0000 <= r <= 0x4000_0000,
{
    proof {
        assert(-7680000 <= i * du <= 7680000 && -7680000 <= j * dv <= 7680000 && -4096 <= jx * su
            <= 4096 && -4096 <= jy * sv <= 4096) by (nonlinear_arith)
            requires
                -256 <= du <= 256,
                -256 <= dv <= 256,
                -256 <= su <= 256,
                -256 <= sv <= 256,
                0 <= i <= 30000,
                0 <= j <= 30000,
                0 <= jx < 16,
                0 <= jy < 16,
        ;
    }
    p00 + i * du + j * dv + jx * su + jy * sv - cen
}

/// Whether depth of field is on: some lens basis vector is nonzero.
pub open spec fn defocus_enabled(c: Camera) -> bool {
    !(c.defocus_sub_u.x == 0 && c.defocus_sub_u.y == 0 && c.defocus_sub_u.z == 0
        && c.defocus_sub_v.x == 0 && c.defocus_sub_v.y == 0 && c.defocus_sub_v.z == 0)
}

/// The two lens-sample offsets from two draws of the stream: a lattice
/// point of the radius-eight disk, falling back to the center when the
/// draw lands outside the disk.
pub open spec fn disk_offsets(s: u64) -> (i64, i64) {
    let a = ((rng_step(s) % 65536 % 16) as i64 - 8) as i64;
    let b = ((rng_step(rng_step(s)) % 65536 % 16) as i64 - 8) as i64;
    if a * a + b * b > 64 {
        (0i64, 0i64)
    } else {
        (a, b)
    }
}

/// What `get_ray` returns, exactly: the ray and the stream state left
/// behind. Two sub-pixel jitter draws, two lens draws when depth of field
/// is on, one time draw.
pub open spec fn get_ray_spec(c: Camera, i: int, j: int, s: u64) -> (Ray, u64) {
    let jx = (rng_step(s) % 65536 % 16) as int;
    let s1 = rng_step(s);
    let jy = (rng_step(s1) % 65536 % 16) as int;
    let s2 = rng_step(s1);
    let off = if defocus_enabled(c) {
        disk_offsets(s2)
    } else {
        (0i64, 0i64)
    };
    let s3 = if defocus_enabled(c) {
        rng_step(rng_step(s2))
    } else {
        s2
    };
    let orig = Vec3 {
        x: (c.center.x + off.0 * c.defocus_sub_u.x + off.1 * c.defocus_sub_v.x) as i64,
        y: (c.center.y + off.0 * c.defocus_sub_u.y + off.1 * c.defocus_sub_v.y) as i64,
        z: (c.center.z + off.0 * c.defocus_sub_u.z + off.1 * c.defocus_sub_v.z) as i64,
    };
    let tm = (rng_step(s3) % 65536) as i64;
    let s4 = rng_step(s3);
    let dir = Vec3 {
        x: (c.pixel00_loc.x + i * c.pixel_delta_u.x + j * c.pixel_delta_v.x + jx
            * c.pixel_sub_u.x + jy * c.pixel_sub_v.x - orig.x) as i64,
        y: (c.pixel00_loc.y + i * c.pixel_delta_u.y + j * c.pixel_delta_v.y + jx
            * c.pixel_sub_u.y + jy * c.pixel_sub_v.y - orig.y) as i64,
        z: (c.pixel00_loc.z + i * c.pixel_delta_u.z + j * c.pixel_delta_v.z + jx
            * c.pixel_sub_u.z + jy * c.pixel_sub_v.z - orig.z) as i64,
    };
    (Ray { orig, dir, tm }, s4)
}

/// A lens-sample offset along the lens basis stays within the anchor slack.
proof fn lemma_lens_bound(d0: i64, u: i64, d1: i64, v: i64)
    by (nonlinear_arith)
    requires
        -8 <= d0 <= 8,
        -8 <= d1 <= 8,
        -256 <= u <= 256,
        -256 <= v <= 256,
    ensures
        -2048 <= d0 * u <= 2048,
        -2048 <= d1 * v <= 2048,
{
}

/// The distribution a scattering material hands back: cosine-weighted about
/// the normal for diffuse surfaces, uniform for isotropic media.
pub open spec fn scatter_pdf_of(mat: MaterialKind, normal: Vec3) -> ScatterPdf {
    match mat {
        MaterialKind::Lambertian(_) => ScatterPdf::Cosine(CosinePdf { w: normal }),
        _ => ScatterPdf::Sphere(SpherePdf),
    }
}

/// The light-targeted draw: box primitives are not usable lights, so the
/// draw is the fixed fallback direction; a nonempty light list costs one
/// stream step to pick a member.
pub open spec fn light_generate_spec(nlights: int, s: u64) -> (Vec3, u64) {
    (
        Vec3 { x: 1, y: 0, z: 0 },
        if nlights == 0 {
            s
        } else {
            rng_step(s)
        },
    )
}

/// The mixture draw of the integrator: an unbiased coin (the parity of the
/// next stream step) picks the material's distribution or the
/// light-targeted one, which then draws on the advanced stream.
pub open spec fn mix_generate_spec(mat_pdf: ScatterPdf, nlights: int, s: u64) -> (Vec3, u64) {
    if rng_step(s) % 2 == 0 {
        mat_pdf.generate_spec(rng_step(s))
    } else {
        light_generate_spec(nlights, rng_step(s))
    }
}

/// What `ray_color` returns, exactly: the radiance estimate and the stream
/// state left behind, as a function of the ray, the scene, the material
/// arena, the number of designated lights, the background, the depth budget
/// and the incoming stream.
pub open spec fn ray_color_spec(
    r: Ray,
    world: Bvh,
    materials: Seq<MaterialKind>,
    nlights: int,
    background: Color,
    depth: int,
    s: u64,
) -> (Color, u64)
    decreases depth,
{
    if depth <= 0 {
        (Color { r: 0, g: 0, b: 0 }, s)
    } else {
        match bvh_hit_spec(world, r, integrator_range()) {
            Option::None => (background, s),
            Option::Some(rec) => {
                let mat = materials[rec.mat as int];
                let emitted = emitted_spec(mat, rec.front_face);
                if absorbing(mat) {
                    (emitted, s)
                } else {
                    let p = survival_p(scatter_attenuation(mat));
                    let coin = rng_step(s) % 65536;
                    let s1 = rng_step(s);
                    if !(coin < p) {
                        (emitted, s1)
                    } else {
                        match mat {
                            MaterialKind::Metal(_) => {
                                let skip = Ray {
                                    orig: rec.p,
                                    dir: reflect_spec(r.dir, rec.normal),
                                    tm: r.tm,
                                };
                                let sub = ray_color_spec(
                                    skip,
                                    world,
                                    materials,
                                    nlights,
                                    background,
                                    depth - 1,
                                    s1,
                                );
                                (
                                    color_add_spec(
                                        emitted,
                                        color_div_spec(
                                            color_mul_spec(scatter_attenuation(mat), sub.0),
                                            p,
                                        ),
                                    ),
                                    sub.1,
                                )
                            },
                            _ => {
                                let mat_pdf = scatter_pdf_of(mat, rec.normal);
                                let drawn = mix_generate_spec(mat_pdf, nlights, s1);
                                let scattered = Ray { orig: rec.p, dir: drawn.0, tm: r.tm };
                                let pdf_value = ((mat_pdf.density(drawn.0) + 0) / 2) as u64;
                                let spdf = scattering_pdf_spec(mat, rec.normal, drawn.0);
                                let sub = ray_color_spec(
                                    scattered,
                                    world,
                                    materials,
                                    nlights,
                                    background,
                                    depth - 1,
                                    drawn.1,
                                );
                                if pdf_value == 0 {
                                    (emitted, sub.1)
                                } else {
                                    (
                                        color_add_spec(
                                            emitted,
                                            color_div_spec(
                                                color_div_spec(
                                                    color_scale_spec(
                                                        color_mul_spec(
                                                            scatter_attenuation(mat),
                                                            sub.0,
                                                        ),
                                                        spdf,
                                                    ),
                                                    pdf_value,
                                                ),
                                                p,
                                            ),
                                        ),
                                        sub.1,
                                    )
                                }
                            },
                        }
                    }
                }
            },
        }
    }
}

/// The accumulated radiance of the first `k` samples of a pixel, and the
/// stream state after them: each sample casts a jittered ray and estimates
/// radiance along it.
pub open spec fn sample_sum_spec(
    cam: Camera,
    world: Bvh,
    materials: Seq<MaterialKind>,
    nlights: int,
    x: int,
    y: int,
    k: int,
    s: u64,
) -> (Color, u64)
    decreases k,
{
    if k <= 0 {
        (Color { r: 0, g: 0, b: 0 }, s)
    } else {
        let prev = sample_sum_spec(cam, world, materials, nlights, x, y, k - 1, s);
        let ray = get_ray_spec(cam, x, y, prev.1);
        let sub = ray_color_spec(
            ray.0,
            world,
            materials,
            nlights,
            cam.background,
            cam.max_depth as int,
            ray.1,
        );
        (color_add_spec(prev.0, sub.0), sub.1)
    }
}

/// The stream a pixel starts from: the seed mixed with its coordinates.
pub open spec fn pixel_stream_seed(seed: u64, x: int, y: int) -> u64 {
    rng_step((seed ^ (((x as u64) ^ ((y as u64) << 32)) as u64)) as u64)
}

/// The color a pixel renders to: the average of `sample_per_pixel` radiance
/// estimates on the pixel's own stream.
pub open spec fn pixel_value_spec(
    cam: Camera,
    world: Bvh,
    materials: Seq<MaterialKind>,
    nlights: int,
    x: int,
    y: int,
    seed: u64,
) -> Color {
    let sum = sample_sum_spec(
        cam,
        world,
        materials,
        nlights,
        x,
        y,
        cam.sample_per_pixel as int,
        pixel_stream_seed(seed, x, y),
    );
    color_avg_spec(sum.0, cam.sample_per_pixel as u64)
}

impl Camera {
    /// A camera with the renderer's defaults: the given aspect ratio (as an
    /// exact fraction) and width, ten samples per pixel, recursion depth
    /// ten, a black background, and a unit viewport basis looking down the
    /// negative z axis until the author supplies one.
    pub fn new(aspect_num: i64, aspect_den: i64, image_width: usize) -> (c: Camera)
        ensures
            c.aspect_num == aspect_num,
            c.aspect_den == aspect_den,
            c.image_width == image_width,
            c.image_height == 0,
            c.sample_per_pixel == 10,
            c.max_depth == 10,
            c.background == (Color { r: 0, g: 0, b: 0 }),
            c.center == (Vec3 { x: 0, y: 0, z: 0 }),
            c.pixel00_loc == (Vec3 { x: 0, y: 0, z: -64i64 }),
            c.pixel_delta_u == (Vec3 { x: 1, y: 0, z: 0 }),
            c.pixel_delta_v == (Vec3 { x: 0, y: -1i64, z: 0 }),
            c.pixel_sub_u == (Vec3 { x: 0, y: 0, z: 0 }),
            c.pixel_sub_v == (Vec3 { x: 0, y: 0, z: 0 }),
            c.defocus_sub_u == (Vec3 { x: 0, y: 0, z: 0 }),
            c.defocus_sub_v == (Vec3 { x: 0, y: 0, z: 0 }),
    {
        Camera {
            aspect_num,
            aspect_den,
            image_width,
            image_height: 0,
            center: Vec3 { x: 0, y: 0, z: 0 },
            pixel00_loc: Vec3 { x: 0, y: 0, z: -64 },
            pixel_delta_u: Vec3 { x: 1, y: 0, z: 0 },
            pixel_delta_v: Vec3 { x: 0, y: -1, z: 0 },
            pixel_sub_u: Vec3 { x: 0, y: 0, z: 0 },
            pixel_sub_v: Vec3 { x: 0, y: 0, z: 0 },
            defocus_sub_u: Vec3 { x: 0, y: 0, z: 0 },
            defocus_sub_v: Vec3 { x: 0, y: 0, z: 0 },
            sample_per_pixel: 10,
            max_depth: 10,
            background: Color { r: 0, g: 0, b: 0 },
        }
    }

    /// Derive the image height from the width and the aspect ratio, floored
    /// at one: a degenerate configuration is normalized to a safe minimum,
    /// never treated as fatal.
    pub fn initialize(&mut self)
        requires
            1 <= old(self).aspect_num <= 1000000,
            1 <= old(self).aspect_den <= 1000000,
            1 <= old(self).image_width <= IMAGE_LIMIT,
            (old(self).image_width as int) * old(self).aspect_den / (old(self).aspect_num as int)
                <= IMAGE_LIMIT,
        ensures
            *final(self) == (Camera {
                image_height: final(self).image_height,
                ..*old(self)
            }),
            final(self).image_height == (if (old(self).image_width as int) * old(self).aspect_den
                / (old(self).aspect_num as int) >= 1 {
                (old(self).image_width as int) * old(self).aspect_den / (old(self).aspect_num as int)
            } else {
                1int
            }),
    {
        proof {
            assert(0 <= (self.image_width as int) * self.aspect_den <= 0x2D79883D2000)
                by (nonlinear_arith)
                requires
                    1 <= self.image_width <= 30000,
                    1 <= self.aspect_den <= 1000000,
            ;
            assert((self.image_width as int) * self.aspect_den / (self.aspect_num as int) <= 0x2D79883D2000)
                by (nonlinear_arith)
                requires
                    0 <= (self.image_width as int) * self.aspect_den <= 0x2D79883D2000,
                    1 <= self.aspect_num,
            ;
            assert(0 <= (self.image_width as int) * self.aspect_den / (self.aspect_num as int))
                by (nonlinear_arith)
                requires
                    0 <= (self.image_width as int) * self.aspect_den,
                    1 <= self.aspect_num,
            ;
        }
        let h = (self.image_width as i64) * self.aspect_den / self.aspect_num;
        if h < 1 {
            self.image_height = 1;
        } else {
            self.image_height = h as usize;
        }
    }

    /// A camera ray for pixel `(i, j)`: it starts on the camera's lens (at
    /// the center when depth of field is off, else offset by a random lens
    /// sample) and heads for a point jittered within the pixel's footprint
    /// on the viewport, cast at a random time. The whole ray is an exact
    /// function of the pixel and the stream.
    pub fn get_ray(&self, i: usize, j: usize, rng: &mut RngState) -> (r: Ray)
        requires
            camera_wf(*self),
            i < self.image_width,
            j < self.image_height,
        ensures
            ray_wf(r),
            (r, final(rng).s) == get_ray_spec(*self, i as int, j as int, old(rng).s),
    {
        let jx = (rng.next_unit() % 16) as i64;
        let jy = (rng.next_unit() % 16) as i64;
        let defocus = !(self.defocus_sub_u.near_zero() && self.defocus_sub_v.near_zero());
        let (d0, d1): (i64, i64) = if defocus {
            let a = (rng.next_unit() % 16) as i64 - 8;
            let b = (rng.next_unit() % 16) as i64 - 8;
            proof {
                assert(0 <= a * a <= 64 && 0 <= b * b <= 64) by (nonlinear_arith)
                    requires
                        -8 <= a <= 8,
                        -8 <= b <= 8,
                ;
            }
            if a * a + b * b > 64 {
                (0, 0)
            } else {
                (a, b)
            }
        } else {
            (0, 0)
        };
        let tm = rng.next_unit() as i64;
        proof {
            lemma_lens_bound(d0, self.defocus_sub_u.x, d1, self.defocus_sub_v.x);
            lemma_lens_bound(d0, self.defocus_sub_u.y, d1, self.defocus_sub_v.y);
            lemma_lens_bound(d0, self.defocus_sub_u.z, d1, self.defocus_sub_v.z);
        }
        let ox = self.center.x + d0 * self.defocus_sub_u.x + d1 * self.defocus_sub_v.x;
        let oy = self.center.y + d0 * self.defocus_sub_u.y + d1 * self.defocus_sub_v.y;
        let oz = self.center.z + d0 * self.defocus_sub_u.z + d1 * self.defocus_sub_v.z;
        let ii = i as i64;
        let jj = j as i64;
        let dx = ray_component(
            self.pixel00_loc.x,
            self.pixel_delta_u.x,
            self.pixel_delta_v.x,
            self.pixel_sub_u.x,
            self.pixel_sub_v.x,
            ox,
            ii,
            jj,
            jx,
            jy,
        );
        let dy = ray_component(
            self.pixel00_loc.y,
            self.pixel_delta_u.y,
            self.pixel_delta_v.y,
            self.pixel_sub_u.y,
            self.pixel_sub_v.y,
            oy,
            ii,
            jj,
            jx,
            jy,
        );
        let dz = ray_component(
            self.pixel00_loc.z,
            self.pixel_delta_u.z,
            self.pixel_delta_v.z,
            self.pixel_sub_u.z,
            self.pixel_sub_v.z,
            oz,
            ii,
            jj,
            jx,
            jy,
        );
        let r = Ray::new(Vec3 { x: ox, y: oy, z: oz }, Vec3 { x: dx, y: dy, z: dz }, tm);
        proof {
            assert((r, rng.s) == get_ray_spec(*self, i as int, j as int, old(rng).s));
        }
        r
    }

    /// Estimate the radiance arriving along `r`. The recursion is bounded by
    /// `depth`; an exhausted budget is black, a ray that strikes nothing is
    /// the background, an absorbing surface is its emission alone. A
    /// scattering surface adds its attenuated, importance-weighted recursive
    /// estimate, terminated stochastically with the survival probability
    /// divided back out. A specular scatter bypasses the importance
    /// weighting entirely.
    pub fn ray_color(
        r: &Ray,
        world: &Bvh,
        materials: &Vec<MaterialKind>,
        lights: &HittableList,
        depth: usize,
        background: &Color,
        rng: &mut RngState,
    ) -> (c: Color)
        requires
            ray_wf(*r),
            bvh_wf(*world),
            scene_wf(*world, materials@),
            list_wf(*lights),
        ensures
            (c, final(rng).s) == ray_color_spec(
                *r,
                *world,
                materials@,
                lights.objects@.len() as int,
                *background,
                depth as int,
                old(rng).s,
            ),
            depth == 0 ==> c == (Color { r: 0, g: 0, b: 0 }),
            (depth > 0 && (forall|j: int, t: Rat|
                !(#[trigger] prim_hits_at(world.prims@, j, *r, integrator_range(), t)))) ==> c
                == *background,
        decreases depth,
    {
        if depth == 0 {
            return Color { r: 0, g: 0, b: 0 };
        }
        let ray_t = make_integrator_range();
        let hit = world.hit(r, &ray_t);
        match hit {
            Option::None => *background,
            Option::Some(rec) => {
                proof {
                    let jw = choose|j: int|
                        #[trigger] prim_hits_at(world.prims@, j, *r, integrator_range(), rec.t)
                            && world.prims@[j].mat == rec.mat;
                    assert(world.prims@[jw].mat < materials@.len());
                }
                let mat = materials[rec.mat];
                let color_from_emission = mat.emitted(&rec);
                match mat.scatter(r, &rec) {
                    Option::None => color_from_emission,
                    Option::Some(srec) => {
                        proof {
                            assert(!absorbing(mat));
                            assert(srec.attenuation == scatter_attenuation(mat));
                        }
                        let p = survival_p_of(&srec.attenuation);
                        let coin = rng.next_unit();
                        if !(coin < p) {
                            // Terminated: the emission alone, unbiased by the
                            // division below on the surviving paths.
                            return color_from_emission;
                        }
                        match srec.skip_pdf_ray {
                            Option::Some(skip_ray) => {
                                let sample = Camera::ray_color(
                                    &skip_ray,
                                    world,
                                    materials,
                                    lights,
                                    depth - 1,
                                    background,
                                    rng,
                                );
                                color_from_emission.add(
                                    &srec.attenuation.mul(&sample).divided(p),
                                )
                            },
                            Option::None => {
                                let mat_pdf = match srec.pdf_ptr {
                                    Option::Some(pp) => pp,
                                    Option::None => {
                                        // A scatter without a specular ray
                                        // always carries a distribution.
                                        proof {
                                            assert(false);
                                        }
                                        ScatterPdf::Sphere(crate::pdf::SpherePdf)
                                    },
                                };
                                proof {
                                    assert(mat_pdf == scatter_pdf_of(mat, rec.normal));
                                }
                                let light_pdf = HittablePdf::new(lights.clone_objects(), rec.p);
                                let mixed = MixturePdf::new(mat_pdf, light_pdf);
                                let ghost s_mix = rng.s;
                                let direction = mixed.generate(rng);
                                proof {
                                    assert((direction, rng.s) == mix_generate_spec(
                                        mat_pdf,
                                        lights.objects@.len() as int,
                                        s_mix,
                                    ));
                                }
                                let scattered = Ray::new(rec.p, direction, r.time());
                                let pdf_value = mixed.value(&direction);
                                let scattering_pdf = mat.scattering_pdf(r, &rec, &scattered);
                                let sample = Camera::ray_color(
                                    &scattered,
                                    world,
                                    materials,
                                    lights,
                                    depth - 1,
                                    background,
                                    rng,
                                );
                                if pdf_value == 0 {
                                    // A vanishing density contributes nothing
                                    // rather than dividing by zero.
                                    color_from_emission
                                } else {
                                    let weighted = srec.attenuation.mul(&sample).scaled(
                                        scattering_pdf,
                                    ).divided(pdf_value).divided(p);
                                    color_from_emission.add(&weighted)
                                }
                            },
                        }
                    },
                }
            },
        }
    }
}

impl Camera {
    /// Render one tile into a private buffer: for every pixel of the tile,
    /// average `sample_per_pixel` jittered radiance estimates, each pixel on
    /// its own random stream derived from the seed and its coordinates. Over
    /// an empty scene every pixel is exactly the background.
    pub fn render_tile(
        &self,
        world: &Bvh,
        materials: &Vec<MaterialKind>,
        lights: &HittableList,
        tile: &Tile,
        seed: u64,
    ) -> (buf: Vec<Color>)
        requires
            camera_wf(*self),
            bvh_wf(*world),
            scene_wf(*world, materials@),
            list_wf(*lights),
            tile_wf(*tile, self.image_width as int, self.image_height as int),
        ensures
            buf@.len() == tile_area(*tile),
            forall|k: int|
                0 <= k < buf@.len() ==> #[trigger] buf@[k] == pixel_value_spec(
                    *self,
                    *world,
                    materials@,
                    lights.objects@.len() as int,
                    tile.x_min + (k % (tile.x_max - tile.x_min)),
                    tile.y_min + (k / (tile.x_max - tile.x_min)),
                    seed,
                ),
            world.prims@.len() == 0 ==> forall|k: int|
                0 <= k < buf@.len() ==> #[trigger] buf@[k] == self.background,
    {
        let tw = tile.x_max - tile.x_min;
        let mut buf: Vec<Color> = Vec::new();
        let mut y = tile.y_min;
        while y < tile.y_max
            invariant
                camera_wf(*self),
                bvh_wf(*world),
                scene_wf(*world, materials@),
                list_wf(*lights),
                tile_wf(*tile, self.image_width as int, self.image_height as int),
                tw == tile.x_max - tile.x_min,
                tile.y_min <= y <= tile.y_max,
                buf@.len() == (y - tile.y_min) * (tw as int),
                forall|k: int|
                    0 <= k < buf@.len() ==> #[trigger] buf@[k] == pixel_value_spec(
                        *self,
                        *world,
                        materials@,
                        lights.objects@.len() as int,
                        tile.x_min + (k % (tw as int)),
                        tile.y_min + (k / (tw as int)),
                        seed,
                    ),
                world.prims@.len() == 0 ==> forall|k: int|
                    0 <= k < buf@.len() ==> #[trigger] buf@[k] == self.background,
            decreases tile.y_max - y,
        {
            let mut x = tile.x_min;
            while x < tile.x_max
                invariant
                    camera_wf(*self),
                    bvh_wf(*world),
                    scene_wf(*world, materials@),
                    list_wf(*lights),
                    tile_wf(*tile, self.image_width as int, self.image_height as int),
                    tw == tile.x_max - tile.x_min,
                    tile.y_min <= y < tile.y_max,
                    tile.x_min <= x <= tile.x_max,
                    buf@.len() == (y - tile.y_min) * (tw as int) + (x - tile.x_min),
                    forall|k: int|
                        0 <= k < buf@.len() ==> #[trigger] buf@[k] == pixel_value_spec(
                            *self,
                            *world,
                            materials@,
                            lights.objects@.len() as int,
                            tile.x_min + (k % (tw as int)),
                            tile.y_min + (k / (tw as int)),
                            seed,
                        ),
                    world.prims@.len() == 0 ==> forall|k: int|
                        0 <= k < buf@.len() ==> #[trigger] buf@[k] == self.background,
                decreases tile.x_max - x,
            {
                let pixel = self.render_pixel(world, materials, lights, x, y, seed);
                let ghost slot = buf@.len() as int;
                buf.push(pixel);
                proof {
                    vstd::arithmetic::div_mod::lemma_fundamental_div_mod_converse(
                        slot,
                        tw as int,
                        y as int - tile.y_min,
                        x as int - tile.x_min,
                    );
                    assert(slot % (tw as int) == x - tile.x_min && slot / (tw as int) == y
                        - tile.y_min);
                }
                x = x + 1;
            }
            proof {
                assert((y + 1 - tile.y_min) * (tw as int) == (y - tile.y_min) * (tw as int)
                    + tw) by (nonlinear_arith);
            }
            y = y + 1;
        }
        proof {
            assert(buf@.len() == tile_area(*tile));
        }
        buf
    }

    /// One pixel's color: the average of `sample_per_pixel` radiance
    /// estimates along jittered camera rays, on the pixel's own stream.
    fn render_pixel(
        &self,
        world: &Bvh,
        materials: &Vec<MaterialKind>,
        lights: &HittableList,
        x: usize,
        y: usize,
        seed: u64,
    ) -> (pixel: Color)
        requires
            camera_wf(*self),
            bvh_wf(*world),
            scene_wf(*world, materials@),
            list_wf(*lights),
            x < self.image_width,
            y < self.image_height,
        ensures
            pixel == pixel_value_spec(
                *self,
                *world,
                materials@,
                lights.objects@.len() as int,
                x as int,
                y as int,
                seed,
            ),
            world.prims@.len() == 0 ==> pixel == self.background,
    {
        let mut rng = RngState::for_pixel(seed, x as u64, y as u64);
        let ghost s0 = rng.s;
        proof {
            assert(s0 == pixel_stream_seed(seed, x as int, y as int));
        }
        let mut sum = Color { r: 0, g: 0, b: 0 };
        let spp = self.sample_per_pixel;
        let mut s: usize = 0;
        while s < spp
            invariant
                camera_wf(*self),
                bvh_wf(*world),
                scene_wf(*world, materials@),
                list_wf(*lights),
                x < self.image_width,
                y < self.image_height,
                spp == self.sample_per_pixel,
                s <= spp,
                (sum, rng.s) == sample_sum_spec(
                    *self,
                    *world,
                    materials@,
                    lights.objects@.len() as int,
                    x as int,
                    y as int,
                    s as int,
                    s0,
                ),
                world.prims@.len() == 0 ==> (sum.r == s * self.background.r && sum.g == s
                    * self.background.g && sum.b == s * self.background.b),
            decreases spp - s,
        {
            let ray = self.get_ray(x, y, &mut rng);
            let c = Camera::ray_color(
                &ray,
                world,
                materials,
                lights,
                self.max_depth,
                &self.background,
                &mut rng,
            );
            proof {
                if world.prims@.len() == 0 {
                    assert(forall|j: int, t: Rat|
                        !(#[trigger] prim_hits_at(world.prims@, j, ray, integrator_range(), t)));
                    assert(c == self.background);
                    assert(s * self.background.r + self.background.r == (s + 1)
                        * self.background.r && s * self.background.r <= 0x1_0000_0000_0000 && s
                        * self.background.g + self.background.g == (s + 1) * self.background.g
                        && s * self.background.g <= 0x1_0000_0000_0000 && s * self.background.b
                        + self.background.b == (s + 1) * self.background.b && s
                        * self.background.b <= 0x1_0000_0000_0000) by (nonlinear_arith)
                        requires
                            0 <= s <= 65536,
                            self.background.r <= 0x1_0000_0000,
                            self.background.g <= 0x1_0000_0000,
                            self.background.b <= 0x1_0000_0000,
                    ;
                }
            }
            sum = sum.add(&c);
            s = s + 1;
        }
        let pixel = sum.averaged(spp as u64);
        proof {
            if world.prims@.len() == 0 {
                lemma_div_multiples_vanish(self.background.r as int, spp as int);
                lemma_div_multiples_vanish(self.background.g as int, spp as int);
                lemma_div_multiples_vanish(self.background.b as int, spp as int);
            }
        }
        pixel
    }

    /// Render the whole image: plan the fixed tile grid, render each tile
    /// into its private buffer, and splice the buffers into the shared
    /// framebuffer. Tiles here run in sequence; a concurrent driver that
    /// admits tiles through the worker gate produces the same framebuffer,
    /// because distinct tiles are pixel-disjoint and splices of disjoint
    /// tiles commute. Over an empty scene every pixel is exactly the
    /// background.
    pub fn render(
        &self,
        world: &Bvh,
        materials: &Vec<MaterialKind>,
        lights: &HittableList,
        seed: u64,
    ) -> (fb: Framebuffer)
        requires
            camera_wf(*self),
            bvh_wf(*world),
            scene_wf(*world, materials@),
            list_wf(*lights),
        ensures
            fb_wf(fb),
            fb.width == self.image_width,
            fb.height == self.image_height,
            forall|idx: int|
                0 <= idx < fb.data@.len() ==> #[trigger] fb.data@[idx] == pixel_value_spec(
                    *self,
                    *world,
                    materials@,
                    lights.objects@.len() as int,
                    idx % (self.image_width as int),
                    idx / (self.image_width as int),
                    seed,
                ),
            world.prims@.len() == 0 ==> forall|idx: int|
                0 <= idx < fb.data@.len() ==> #[trigger] fb.data@[idx] == self.background,
    {
        let w = self.image_width;
        let h = self.image_height;
        let mut fb = Framebuffer::new(w, h);
        let tiles = plan_tiles(w, h);
        let n = tiles.len();
        let mut ti: usize = 0;
        while ti < n
            invariant
                camera_wf(*self),
                bvh_wf(*world),
                scene_wf(*world, materials@),
                list_wf(*lights),
                w == self.image_width,
                h == self.image_height,
                fb_wf(fb),
                fb.width == w,
                fb.height == h,
                ti <= n == tiles@.len(),
                tiles@.len() == WIDTH_PARTITION * HEIGHT_PARTITION,
                forall|k: int|
                    0 <= k < tiles@.len() ==> #[trigger] tiles@[k] == planned_tile(
                        k,
                        w as int,
                        h as int,
                    ),
                forall|idx: int|
                    0 <= idx < fb.data@.len() ==> #[trigger] fb.data@[idx] == (if owner_tile(
                        idx % (w as int),
                        idx / (w as int),
                        w as int,
                        h as int,
                    ) < ti {
                        pixel_value_spec(
                            *self,
                            *world,
                            materials@,
                            lights.objects@.len() as int,
                            idx % (w as int),
                            idx / (w as int),
                            seed,
                        )
                    } else {
                        Color { r: 0, g: 0, b: 0 }
                    }),
                world.prims@.len() == 0 ==> forall|idx: int|
                    0 <= idx < fb.data@.len() ==> #[trigger] fb.data@[idx] == (if owner_tile(
                        idx % (w as int),
                        idx / (w as int),
                        w as int,
                        h as int,
                    ) < ti {
                        self.background
                    } else {
                        Color { r: 0, g: 0, b: 0 }
                    }),
            decreases n - ti,
        {
            let tile = tiles[ti];
            proof {
                lemma_planned_tile_wf(ti as int, w as int, h as int);
            }
            let buf = self.render_tile(world, materials, lights, &tile, seed);
            let ghost pre = fb.data@;
            fb.write_tile(&tile, &buf);
            proof {
                let ghost nl = lights.objects@.len() as int;
                assert forall|idx: int| 0 <= idx < fb.data@.len() implies #[trigger] fb.data@[idx]
                    == (if owner_tile(idx % (w as int), idx / (w as int), w as int, h as int) < ti
                    + 1 {
                    pixel_value_spec(
                        *self,
                        *world,
                        materials@,
                        nl,
                        idx % (w as int),
                        idx / (w as int),
                        seed,
                    )
                } else {
                    Color { r: 0, g: 0, b: 0 }
                }) by {
                    let wi = w as int;
                    let x = idx % wi;
                    let y = idx / wi;
                    vstd::arithmetic::div_mod::lemma_fundamental_div_mod(idx, wi);
                    assert(wi * y == y * wi) by (nonlinear_arith);
                    assert(idx == y * wi + x);
                    assert(0 <= x < wi && 0 <= y < h) by (nonlinear_arith)
                        requires
                            0 <= idx < wi * h,
                            idx == y * wi + x,
                            0 <= x < wi,
                            1 <= wi,
                            fb.data@.len() == wi * h,
                    ;
                    lemma_tile_cover_unique(x, y, wi, h as int, ti as int);
                    assert(tile == planned_tile(ti as int, wi, h as int));
                    assert(idx_in_tile(tile, wi, idx) <==> ti == owner_tile(x, y, wi, h as int));
                    assert(pre[idx] == (if owner_tile(x, y, wi, h as int) < ti {
                        pixel_value_spec(*self, *world, materials@, nl, x, y, seed)
                    } else {
                        Color { r: 0, g: 0, b: 0 }
                    }));
                    if idx_in_tile(tile, wi, idx) {
                        let tw = tile.x_max - tile.x_min;
                        let bidx = tile_buf_idx(tile, wi, idx);
                        assert(bidx == (y - tile.y_min) * (tw as int) + (x - tile.x_min));
                        assert(0 <= bidx < buf@.len()) by (nonlinear_arith)
                            requires
                                tile.x_min <= x < tile.x_max,
                                tile.y_min <= y < tile.y_max,
                                bidx == (y - tile.y_min) * (tw as int) + (x - tile.x_min),
                                tw == tile.x_max - tile.x_min,
                                buf@.len() == (tw as int) * (tile.y_max - tile.y_min),
                        ;
                        assert(buf@.len() == tile_area(tile));
                        vstd::arithmetic::div_mod::lemma_fundamental_div_mod_converse(
                            bidx,
                            tw as int,
                            y - tile.y_min,
                            x - tile.x_min,
                        );
                        assert(bidx % (tw as int) == x - tile.x_min && bidx / (tw as int) == y
                            - tile.y_min);
                        assert(fb.data@[idx] == buf@[bidx]);
                        assert(buf@[bidx] == pixel_value_spec(
                            *self,
                            *world,
                            materials@,
                            nl,
                            x,
                            y,
                            seed,
                        ));
                    } else {
                        assert(fb.data@[idx] == pre[idx]);
                    }
                }
                if world.prims@.len() == 0 {
                    assert forall|idx: int| 0 <= idx < fb.data@.len() implies #[trigger] fb.data@[idx] == (if owner_tile(idx % (w as int), idx / (w as int), w as int, h as int) < ti
                        + 1 {
                        self.background
                    } else {
                        Color { r: 0, g: 0, b: 0 }
                    }) by {
                        let wi = w as int;
                        let x = idx % wi;
                        let y = idx / wi;
                        vstd::arithmetic::div_mod::lemma_fundamental_div_mod(idx, wi);
                        assert(wi * y == y * wi) by (nonlinear_arith);
                        assert(idx == y * wi + x);
                        assert(0 <= x < wi && 0 <= y < h) by (nonlinear_arith)
                            requires
                                0 <= idx < wi * h,
                                idx == y * wi + x,
                                0 <= x < wi,
                                1 <= wi,
                                fb.data@.len() == wi * h,
                        ;
                        lemma_tile_cover_unique(x, y, wi, h as int, ti as int);
                        assert(tile == planned_tile(ti as int, wi, h as int));
                        assert(idx_in_tile(tile, wi, idx) <==> ti == owner_tile(
                            x,
                            y,
                            wi,
                            h as int,
                        ));
                        assert(pre[idx] == (if owner_tile(x, y, wi, h as int) < ti {
                            self.background
                        } else {
                            Color { r: 0, g: 0, b: 0 }
                        }));
                        if idx_in_tile(tile, wi, idx) {
                            assert(0 <= tile_buf_idx(tile, wi, idx) < buf@.len())
                                by (nonlinear_arith)
                                requires
                                    tile.x_min <= x < tile.x_max,
                                    tile.y_min <= y < tile.y_max,
                                    x == idx % wi,
                                    y == idx / wi,
                                    tile_buf_idx(tile, wi, idx) == (y - tile.y_min) * (
                                    tile.x_max - tile.x_min) + (x - tile.x_min),
                                    buf@.len() == (tile.x_max - tile.x_min) * (tile.y_max
                                        - tile.y_min),
                            ;
                            assert(fb.data@[idx] == buf@[tile_buf_idx(tile, wi, idx)]);
                            assert(buf@[tile_buf_idx(tile, wi, idx)] == self.background);
                        } else {
                            assert(fb.data@[idx] == pre[idx]);
                        }
                    }
                }
            }
            ti = ti + 1;
        }
        proof {
            assert forall|idx: int| 0 <= idx < fb.data@.len() implies #[trigger] fb.data@[idx]
                == pixel_value_spec(
                *self,
                *world,
                materials@,
                lights.objects@.len() as int,
                idx % (w as int),
                idx / (w as int),
                seed,
            ) by {
                let wi = w as int;
                let x = idx % wi;
                let y = idx / wi;
                vstd::arithmetic::div_mod::lemma_fundamental_div_mod(idx, wi);
                assert(wi * y == y * wi) by (nonlinear_arith);
                assert(0 <= x < wi && 0 <= y < h) by (nonlinear_arith)
                    requires
                        0 <= idx < wi * h,
                        idx == y * wi + x,
                        0 <= x < wi,
                        1 <= wi,
                        fb.data@.len() == wi * h,
                ;
                lemma_tile_cover_unique(x, y, wi, h as int, 0);
            }
            if world.prims@.len() == 0 {
                assert forall|idx: int| 0 <= idx < fb.data@.len() implies #[trigger] fb.data@[idx]
                    == self.background by {
                    let wi = w as int;
                    let x = idx % wi;
                    let y = idx / wi;
                    vstd::arithmetic::div_mod::lemma_fundamental_div_mod(idx, wi);
                    assert(wi * y == y * wi) by (nonlinear_arith);
                    assert(0 <= x < wi && 0 <= y < h) by (nonlinear_arith)
                        requires
                            0 <= idx < wi * h,
                            idx == y * wi + x,
                            0 <= x < wi,
                            1 <= wi,
                            fb.data@.len() == wi * h,
                    ;
                    lemma_tile_cover_unique(x, y, wi, h as int, 0);
                }
            }
        }
        fb
    }
}

/// The survival probability, executably.
fn survival_p_of(attenuation: &Color) -> (p: u64)
    ensures
        p == survival_p(*attenuation),
{
    let m = attenuation.max_component();
    if m < 62259 {
        m
    } else {
        62259
    }
}

} // verus!
