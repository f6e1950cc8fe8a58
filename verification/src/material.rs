//! The material capability: emitted radiance and scattering behaviour at a
//! hit.
//!
//! Materials here are the exactly-computable representatives of the
//! capability the integrator consumes: diffuse (cosine-weighted scattering),
//! mirror metal (deterministic reflection that bypasses importance
//! sampling), a one-sided diffuse light, an isotropic phase function, and
//! the inert material. Storage is a tagged variant; each dispatch method's
//! contract pins the result to the variant's stated behaviour.

use vstd::prelude::*;

use crate::color::Color;
use crate::hittable::HitRecord;
use crate::pdf::{cosine_density_spec, CosinePdf, Pdf, SpherePdf, UNIFORM_SPHERE_DENSITY};
use crate::ray::{ray_wf, Ray};
use crate::vec3::{is_unit_axis, vec3_wf, Vec3};

verus! {

/// The importance-sampling distribution a scatter event hands back.
#[derive(Debug, Clone, Copy)]
pub enum ScatterPdf {
    Cosine(CosinePdf),
    Sphere(SpherePdf),
}

impl Pdf for ScatterPdf {
    open spec fn wf(&self) -> bool {
        match self {
            ScatterPdf::Cosine(c) => c.wf(),
            ScatterPdf::Sphere(s) => s.wf(),
        }
    }

    open spec fn density(&self, direction: Vec3) -> u64 {
        match self {
            ScatterPdf::Cosine(c) => c.density(direction),
            ScatterPdf::Sphere(s) => s.density(direction),
        }
    }

    open spec fn can_generate(&self, v: Vec3) -> bool {
        match self {
            ScatterPdf::Cosine(c) => c.can_generate(v),
            ScatterPdf::Sphere(s) => s.can_generate(v),
        }
    }

    open spec fn generate_spec(&self, s: u64) -> (Vec3, u64) {
        match self {
            ScatterPdf::Cosine(c) => c.generate_spec(s),
            ScatterPdf::Sphere(sp) => sp.generate_spec(s),
        }
    }

    fn value(&self, direction: &Vec3) -> (r: u64) {
        match self {
            ScatterPdf::Cosine(c) => c.value(direction),
            ScatterPdf::Sphere(s) => s.value(direction),
        }
    }

    fn generate(&self, rng: &mut crate::rng::RngState) -> (v: Vec3) {
        match self {
            ScatterPdf::Cosine(c) => c.generate(rng),
            ScatterPdf::Sphere(s) => s.generate(rng),
        }
    }
}

/// What a material does with an incoming ray at a hit: the attenuation it
/// applies, an optional distribution to draw the new direction from, and an
/// optional deterministic ray for specular materials that must bypass
/// importance-sampling weighting.
pub struct ScatterRecord {
    pub attenuation: Color,
    pub pdf_ptr: Option<ScatterPdf>,
    pub skip_pdf_ray: Option<Ray>,
}

/// A diffuse surface with a solid albedo: scatters cosine-weighted about the
/// surface normal.
#[derive(Debug, Clone, Copy)]
pub struct Lambertian {
    pub albedo: Color,
}

impl Lambertian {
    /// A diffuse surface with the given albedo.
    pub fn new(albedo: Color) -> (r: Lambertian)
        ensures
            r.albedo == albedo,
    {
        Lambertian { albedo }
    }
}

/// A mirror: reflects the incoming ray about the surface normal
/// deterministically.
#[derive(Debug, Clone, Copy)]
pub struct Metal {
    pub albedo: Color,
}

impl Metal {
    /// A mirror with the given tint.
    pub fn new(albedo: Color) -> (r: Metal)
        ensures
            r.albedo == albedo,
    {
        Metal { albedo }
    }
}

/// A one-sided diffuse light: emits on front faces, absorbs everything.
#[derive(Debug, Clone, Copy)]
pub struct DiffuseLight {
    pub emit: Color,
}

impl DiffuseLight {
    /// A light emitting the given radiance.
    pub fn from_color(c: Color) -> (r: DiffuseLight)
        ensures
            r.emit == c,
    {
        DiffuseLight { emit: c }
    }
}

/// An isotropic phase function: scatters uniformly over the sphere.
#[derive(Debug, Clone, Copy)]
pub struct Isotropic {
    pub albedo: Color,
}

impl Isotropic {
    /// An isotropic scatterer with the given albedo.
    pub fn new_with_color(albedo: Color) -> (r: Isotropic)
        ensures
            r.albedo == albedo,
    {
        Isotropic { albedo }
    }
}

/// The inert material: emits nothing and absorbs everything.
#[derive(Debug, Clone, Copy)]
pub struct EmptyMaterial;

/// A material: one of the exactly-computable variants.
#[derive(Debug, Clone, Copy)]
pub enum MaterialKind {
    Lambertian(Lambertian),
    Metal(Metal),
    DiffuseLight(DiffuseLight),
    Isotropic(Isotropic),
    Empty(EmptyMaterial),
}

/// The radiance a material emits at a hit: lights emit their color on front
/// faces, everything else is dark.
pub open spec fn emitted_spec(m: MaterialKind, front_face: bool) -> Color {
    match m {
        MaterialKind::DiffuseLight(l) => if front_face {
            l.emit
        } else {
            Color { r: 0, g: 0, b: 0 }
        },
        _ => Color { r: 0, g: 0, b: 0 },
    }
}

/// The density with which a material itself would scatter into a direction:
/// cosine-weighted for diffuse surfaces, uniform for isotropic media, zero
/// for the rest.
pub open spec fn scattering_pdf_spec(m: MaterialKind, normal: Vec3, direction: Vec3) -> u64 {
    match m {
        MaterialKind::Lambertian(_) => cosine_density_spec(normal, direction),
        MaterialKind::Isotropic(_) => UNIFORM_SPHERE_DENSITY,
        _ => 0u64,
    }
}

/// Materials that never scatter: the estimate at such a surface is its
/// emission alone.
pub open spec fn absorbing(m: MaterialKind) -> bool {
    m is DiffuseLight || m is Empty
}

/// The attenuation a scattering material applies (black for the absorbing
/// ones, which never reach the weighting).
pub open spec fn scatter_attenuation(m: MaterialKind) -> Color {
    match m {
        MaterialKind::Lambertian(l) => l.albedo,
        MaterialKind::Metal(mt) => mt.albedo,
        MaterialKind::Isotropic(i) => i.albedo,
        _ => Color { r: 0, g: 0, b: 0 },
    }
}

impl MaterialKind {
    /// The emitted radiance at a hit.
    pub fn emitted(&self, rec: &HitRecord) -> (c: Color)
        ensures
            c == emitted_spec(*self, rec.front_face),
    {
        match self {
            MaterialKind::DiffuseLight(l) => {
                if rec.front_face {
                    l.emit
                } else {
                    Color { r: 0, g: 0, b: 0 }
                }
            },
            _ => Color { r: 0, g: 0, b: 0 },
        }
    }

    /// The scatter event for an incoming ray at a hit: diffuse surfaces hand
    /// back a cosine distribution about the normal, mirrors a deterministic
    /// reflected ray, isotropic media the uniform sphere distribution;
    /// lights and the inert material absorb.
    pub fn scatter(&self, r_in: &Ray, rec: &HitRecord) -> (res: Option<ScatterRecord>)
        requires
            ray_wf(*r_in),
            is_unit_axis(rec.normal),
            vec3_wf(rec.p),
        ensures
            match res {
                Some(sr) => {
                    &&& match *self {
                        MaterialKind::Lambertian(l) => {
                            &&& sr.attenuation == l.albedo
                            &&& sr.pdf_ptr == Some(ScatterPdf::Cosine(CosinePdf { w: rec.normal }))
                            &&& sr.skip_pdf_ray is None
                        },
                        MaterialKind::Metal(m) => {
                            &&& sr.attenuation == m.albedo
                            &&& sr.pdf_ptr is None
                            &&& sr.skip_pdf_ray == Some(
                                Ray {
                                    orig: rec.p,
                                    dir: crate::vec3::reflect_spec(r_in.dir, rec.normal),
                                    tm: r_in.tm,
                                },
                            )
                            &&& match sr.skip_pdf_ray {
                                Some(ray) => ray_wf(ray),
                                None => false,
                            }
                        },
                        MaterialKind::Isotropic(i) => {
                            &&& sr.attenuation == i.albedo
                            &&& sr.pdf_ptr == Some(ScatterPdf::Sphere(SpherePdf))
                            &&& sr.skip_pdf_ray is None
                        },
                        _ => false,
                    }
                    &&& match sr.pdf_ptr {
                        Some(p) => p.wf(),
                        None => true,
                    }
                },
                None => (self matches MaterialKind::DiffuseLight(_) || self
                    matches MaterialKind::Empty(_)),
            },
    {
        match self {
            MaterialKind::Lambertian(l) => Some(
                ScatterRecord {
                    attenuation: l.albedo,
                    pdf_ptr: Some(ScatterPdf::Cosine(CosinePdf::new(rec.normal))),
                    skip_pdf_ray: None,
                },
            ),
            MaterialKind::Metal(m) => {
                let reflected = Vec3::reflect(&r_in.dir, &rec.normal);
                Some(
                    ScatterRecord {
                        attenuation: m.albedo,
                        pdf_ptr: None,
                        skip_pdf_ray: Some(Ray::new(rec.p, reflected, r_in.tm)),
                    },
                )
            },
            MaterialKind::Isotropic(i) => Some(
                ScatterRecord {
                    attenuation: i.albedo,
                    pdf_ptr: Some(ScatterPdf::Sphere(SpherePdf::new())),
                    skip_pdf_ray: None,
                },
            ),
            MaterialKind::DiffuseLight(_) => None,
            MaterialKind::Empty(_) => None,
        }
    }

    /// The material's own scattering density at a direction (the integrand
    /// weight of the estimator, as opposed to the mixture density used as
    /// the importance-sampling denominator).
    pub fn scattering_pdf(&self, r_in: &Ray, rec: &HitRecord, scattered: &Ray) -> (r: u64)
        requires
            is_unit_axis(rec.normal),
            ray_wf(*scattered),
        ensures
            r == scattering_pdf_spec(*self, rec.normal, scattered.dir),
    {
        match self {
            MaterialKind::Lambertian(_) => {
                let pdf = CosinePdf::new(rec.normal);
                pdf.value(&scattered.dir)
            },
            MaterialKind::Isotropic(_) => UNIFORM_SPHERE_DENSITY,
            _ => 0,
        }
    }
}

} // verus!
