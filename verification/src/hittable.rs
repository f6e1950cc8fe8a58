//! The geometry capability: primitives a ray can strike, hit records, and the
//! brute-force list whose closest-hit semantics the spatial index is held to.
//!
//! The primitive of this crate is an axis-aligned box that a ray strikes at
//! its entry parameter: the least `t` whose point lies in the closed box.
//! That parameter is an exact rational, so "the closest hit over a set of
//! primitives" — the specification both the linear scan and the bounding
//! volume hierarchy satisfy — is a precise statement, not an approximation.

use vstd::prelude::*;

use crate::aabb::{
    aabb_contains_at, aabb_contains_box, aabb_wf, in_slab_closed, Aabb, lemma_mul_le_cancel,
    pad_interval, span,
};
use crate::interval::{interval_wf, Interval, COORD_LIMIT};
use crate::rat::{rat_le, rat_lt, rat_wf, lemma_rat_trans, Rat};
use crate::ray::{range_wf, ray_wf, ParamRange, Ray};
use crate::vec3::{clamp_coord_spec, is_unit_axis, vec3_wf, Point3, Vec3};

verus! {

/// The transient result of a successful ray-primitive intersection: the ray
/// parameter, the hit point (rounded to the coordinate lattice), the surface
/// normal (a unit axis vector oriented against the ray), the front-face flag
/// and the handle of the struck surface's material.
#[derive(Debug, Clone, Copy)]
pub struct HitRecord {
    pub t: Rat,
    pub p: Point3,
    pub normal: Vec3,
    pub front_face: bool,
    pub mat: usize,
}

impl HitRecord {
    /// Orient the stored normal against the incoming ray: the hit is a
    /// front-face hit exactly when the ray runs against the outward normal,
    /// and otherwise the stored normal is flipped to face the ray.
    pub fn set_face_normal(&mut self, r: &Ray, outward_normal: &Vec3)
        requires
            ray_wf(*r),
            vec3_wf(*outward_normal),
        ensures
            final(self).front_face == (outward_normal.x * r.dir.x + outward_normal.y * r.dir.y
                + outward_normal.z * r.dir.z < 0),
            final(self).normal == (if outward_normal.x * r.dir.x + outward_normal.y * r.dir.y
                + outward_normal.z * r.dir.z < 0 {
                *outward_normal
            } else {
                Vec3 { x: -outward_normal.x as i64, y: -outward_normal.y as i64, z: -outward_normal.z as i64 }
            }),
            final(self).t == old(self).t,
            final(self).p == old(self).p,
            final(self).mat == old(self).mat,
    {
        self.front_face = Vec3::dot(r.direction(), outward_normal) < 0;
        self.normal = if self.front_face {
            *outward_normal
        } else {
            outward_normal.neg()
        };
    }
}

/// A geometry primitive: an axis-aligned box with a material handle.
#[derive(Debug, Clone, Copy)]
pub struct Prim {
    pub bbox: Aabb,
    pub mat: usize,
}

/// Validity of a primitive.
pub open spec fn prim_wf(p: Prim) -> bool {
    aabb_wf(p.bbox)
}

/// Whether `t` is the entry parameter of the ray into the closed box: the
/// point at `t` lies in the box and no earlier parameter does. Entry
/// parameters are unique up to rational equality.
pub open spec fn hits_box_at(b: Aabb, r: Ray, t: Rat) -> bool {
    &&& rat_wf(t)
    &&& aabb_contains_at(b, r, t)
    &&& forall|u: Rat| rat_wf(u) && rat_lt(u, t) ==> !(#[trigger] aabb_contains_at(b, r, u))
}

/// Entry parameters come from slab bounds of in-budget boxes, so their
/// numerators and denominators are small enough for all later arithmetic.
pub open spec fn entry_bounded(t: Rat) -> bool {
    &&& rat_wf(t)
    &&& -0x8000_0008 <= t.num <= 0x8000_0008
    &&& t.den <= 0x4000_0000
}

/// A surface normal for a hit: a unit axis vector pointing against the ray.
pub open spec fn normal_against(n: Vec3, d: Vec3) -> bool {
    is_unit_axis(n) && n.x * d.x + n.y * d.y + n.z * d.z < 0
}

/// What a primitive hit query returns: on a hit, the record carries the entry
/// parameter, which lies strictly inside the queried range; on a miss, no
/// entry parameter lies strictly inside the range.
pub open spec fn prim_hit_matches(p: Prim, r: Ray, range: ParamRange, res: Option<HitRecord>) -> bool {
    match res {
        Some(rec) => {
            &&& hits_box_at(p.bbox, r, rec.t)
            &&& rat_lt(range.min, rec.t)
            &&& rat_lt(rec.t, range.max)
            &&& entry_bounded(rec.t)
            &&& rec.mat == p.mat
            &&& rec.front_face == true
            &&& normal_against(rec.normal, r.dir)
            &&& vec3_wf(rec.p)
        },
        None => forall|t: Rat|
            #[trigger] hits_box_at(p.bbox, r, t) ==> !(rat_lt(range.min, t) && rat_lt(
                t,
                range.max,
            )),
    }
}

/// Running state of the slab fold: whether any zero-direction axis has ruled
/// the box out (`ok`), whether a finite parameter bracket exists yet (`has`),
/// the bracket itself, and the axis that set its lower end.
pub struct FoldState {
    pub ok: bool,
    pub has: bool,
    pub lo: Rat,
    pub hi: Rat,
    pub ax: usize,
}

/// One axis of the entry-parameter fold, at the spec level: what `fold_axis`
/// computes.
pub open spec fn fold_axis_spec(iv: Interval, o: int, d: int, axis: int, st: FoldState) -> FoldState {
    if d == 0 {
        if o < iv.min || o > iv.max {
            FoldState { ok: false, ..st }
        } else {
            st
        }
    } else {
        let t0 = if d > 0 {
            Rat { num: (iv.min - o) as i64, den: d as i64 }
        } else {
            Rat { num: (o - iv.max) as i64, den: (-d) as i64 }
        };
        let t1 = if d > 0 {
            Rat { num: (iv.max - o) as i64, den: d as i64 }
        } else {
            Rat { num: (o - iv.min) as i64, den: (-d) as i64 }
        };
        if !st.has {
            FoldState { ok: st.ok, has: true, lo: t0, hi: t1, ax: axis as usize }
        } else {
            let nlo = if rat_lt(st.lo, t0) {
                t0
            } else {
                st.lo
            };
            let nax = if rat_lt(st.lo, t0) {
                axis as usize
            } else {
                st.ax
            };
            let nhi = if rat_lt(t1, st.hi) {
                t1
            } else {
                st.hi
            };
            FoldState { ok: st.ok, has: true, lo: nlo, hi: nhi, ax: nax }
        }
    }
}

/// The slab fold over all three axes, at the spec level.
pub open spec fn prim_fold_spec(p: Prim, r: Ray) -> FoldState {
    let st0 = FoldState {
        ok: true,
        has: false,
        lo: Rat { num: 0, den: 1 },
        hi: Rat { num: 0, den: 1 },
        ax: 0,
    };
    let s1 = fold_axis_spec(p.bbox.x, r.orig.x as int, r.dir.x as int, 0, st0);
    let s2 = fold_axis_spec(p.bbox.y, r.orig.y as int, r.dir.y as int, 1, s1);
    fold_axis_spec(p.bbox.z, r.orig.z as int, r.dir.z as int, 2, s2)
}

/// The rounded hit point of the ray at parameter `t`: each coordinate is the
/// floor of the exact rational coordinate, forced into the coordinate
/// budget.
pub open spec fn hit_point_spec(r: Ray, t: Rat) -> Vec3 {
    Vec3 {
        x: clamp_coord_spec((r.orig.x * t.den + t.num * r.dir.x) / (t.den as int)) as i64,
        y: clamp_coord_spec((r.orig.y * t.den + t.num * r.dir.y) / (t.den as int)) as i64,
        z: clamp_coord_spec((r.orig.z * t.den + t.num * r.dir.z) / (t.den as int)) as i64,
    }
}

/// The entry normal for a fold state: the unit axis that set the bracket's
/// lower end, signed against the ray's direction along it.
pub open spec fn entry_normal_spec(r: Ray, ax: int) -> Vec3 {
    let sign: i64 = if r.dir.axis_spec(ax) > 0 {
        -1i64
    } else {
        1i64
    };
    if ax == 0 {
        Vec3 { x: sign, y: 0, z: 0 }
    } else if ax == 1 {
        Vec3 { x: 0, y: sign, z: 0 }
    } else {
        Vec3 { x: 0, y: 0, z: sign }
    }
}

/// What `Prim::hit` returns, exactly: the whole record is a function of the
/// primitive, the ray and the queried window.
pub open spec fn prim_hit_spec(p: Prim, r: Ray, range: ParamRange) -> Option<HitRecord> {
    let s3 = prim_fold_spec(p, r);
    if !s3.ok || !s3.has || rat_lt(s3.hi, s3.lo) {
        None
    } else if rat_lt(range.min, s3.lo) && rat_lt(s3.lo, range.max) {
        Some(
            HitRecord {
                t: s3.lo,
                p: hit_point_spec(r, s3.lo),
                normal: entry_normal_spec(r, s3.ax as int),
                front_face: true,
                mat: p.mat,
            },
        )
    } else {
        None
    }
}

/// Floor division by a positive divisor (the rounding the hit point uses:
/// unlike truncation it commutes with integer translation).
fn div_floor(a: i64, b: i64) -> (q: i64)
    requires
        0 < b <= 0x4000_0000,
        -0x4000_0000_0000_0000 <= a <= 0x4000_0000_0000_0000,
    ensures
        q == a as int / b as int,
{
    if a >= 0 {
        let q0 = (a as u64) / (b as u64);
        q0 as i64
    } else {
        let m = (-a) as u64;
        let bb = b as u64;
        let q0 = ((m + (bb - 1)) / bb) as i64;
        proof {
            vstd::arithmetic::div_mod::lemma_fundamental_div_mod(m as int + (b as int - 1), b as int);
            let r0 = (m as int + (b as int - 1)) % (b as int);
            assert(0 <= r0 < b as int);
            assert((b as int) * (q0 as int) == m as int + (b as int - 1) - r0);
            assert(0 <= (b as int) * (q0 as int) - m < b as int);
            assert((b as int) * (-(q0 as int)) == -((b as int) * (q0 as int))) by (nonlinear_arith);
            vstd::arithmetic::div_mod::lemma_fundamental_div_mod_converse(
                a as int,
                b as int,
                -(q0 as int),
                (b as int) * (q0 as int) - m as int,
            );
        }
        -q0
    }
}

/// The parameters still admitted by the fold state.
spec fn fold_sat(st: FoldState, t: Rat) -> bool {
    st.ok && (st.has ==> rat_le(st.lo, t) && rat_le(t, st.hi))
}

/// Well-formedness of the fold state.
spec fn fold_ok(st: FoldState) -> bool {
    st.has ==> entry_bounded(st.lo) && entry_bounded(st.hi) && st.ax < 3
}

/// Ring identities used to move a slab bound across the inequality.
proof fn lemma_fold_shift(p: int, q: int, r: int)
    by (nonlinear_arith)
    ensures
        (p - q) * r == p * r - q * r,
        p * (-q) == -(p * q),
{
}

/// A unit axis component chosen against the direction's sign makes the dot
/// product with the direction negative, wherever it sits in the sum.
proof fn lemma_unit_axis_dot(sign: i64, da: i64, b1: i64, b2: i64)
    by (nonlinear_arith)
    requires
        (da > 0 && sign == -1) || (da < 0 && sign == 1),
    ensures
        sign * da + 0 * b1 + 0 * b2 < 0,
        0 * b1 + sign * da + 0 * b2 < 0,
        0 * b1 + 0 * b2 + sign * da < 0,
{
}

/// One axis of the entry-parameter fold: narrow the admitted bracket to the
/// parameters whose ray coordinate lies in this axis' closed slab.
fn fold_axis(iv: &Interval, o: i64, d: i64, axis: usize, st: FoldState) -> (ns: FoldState)
    requires
        interval_wf(*iv),
        -COORD_LIMIT <= o <= COORD_LIMIT,
        -COORD_LIMIT <= d <= COORD_LIMIT,
        axis < 3,
        fold_ok(st),
    ensures
        fold_ok(ns),
        forall|t: Rat|
            #![trigger fold_sat(st, t)]
            #![trigger fold_sat(ns, t)]
            rat_wf(t) ==> (fold_sat(ns, t) <==> (fold_sat(st, t) && in_slab_closed(
                *iv,
                o as int,
                d as int,
                t,
            ))),
        ns.has ==> (ns.ax == axis && d != 0) || (st.has && ns.ax == st.ax),
        ns == fold_axis_spec(*iv, o as int, d as int, axis as int, st),
{
    if d == 0 {
        if o < iv.min || o > iv.max {
            let ns = FoldState { ok: false, ..st };
            proof {
                assert forall|t: Rat| rat_wf(t) implies !fold_sat(ns, t) && !in_slab_closed(
                    *iv,
                    o as int,
                    d as int,
                    t,
                ) by {
                    lemma_mul_le_cancel(iv.min as int, o as int, t.den as int);
                    lemma_mul_le_cancel(o as int, iv.max as int, t.den as int);
                }
            }
            ns
        } else {
            proof {
                assert forall|t: Rat| rat_wf(t) implies in_slab_closed(*iv, o as int, d as int, t)
                    by {
                    lemma_mul_le_cancel(iv.min as int, o as int, t.den as int);
                    lemma_mul_le_cancel(o as int, iv.max as int, t.den as int);
                }
            }
            st
        }
    } else {
        let (t0, t1): (Rat, Rat) = if d > 0 {
            (Rat { num: iv.min - o, den: d }, Rat { num: iv.max - o, den: d })
        } else {
            (Rat { num: o - iv.max, den: -d }, Rat { num: o - iv.min, den: -d })
        };
        proof {
            assert forall|t: Rat| rat_wf(t) implies (rat_le(t0, t) && rat_le(t, t1))
                == in_slab_closed(*iv, o as int, d as int, t) by {
                lemma_fold_shift(iv.min as int, o as int, t.den as int);
                lemma_fold_shift(iv.max as int, o as int, t.den as int);
                lemma_fold_shift(o as int, iv.max as int, t.den as int);
                lemma_fold_shift(o as int, iv.min as int, t.den as int);
                lemma_fold_shift(t.num as int, d as int, 0);
            }
        }
        let ns = if !st.has {
            FoldState { ok: st.ok, has: true, lo: t0, hi: t1, ax: axis }
        } else {
            let (nlo, nax): (Rat, usize) = if st.lo.lt(&t0) {
                (t0, axis)
            } else {
                (st.lo, st.ax)
            };
            let nhi = if t1.lt(&st.hi) {
                t1
            } else {
                st.hi
            };
            FoldState { ok: st.ok, has: true, lo: nlo, hi: nhi, ax: nax }
        };
        proof {
            assert forall|t: Rat| rat_wf(t) implies (fold_sat(ns, t) <==> (fold_sat(st, t)
                && rat_le(t0, t) && rat_le(t, t1))) by {
                if st.has {
                    lemma_rat_trans(st.lo, ns.lo, t);
                    lemma_rat_trans(t0, ns.lo, t);
                    lemma_rat_trans(t, ns.hi, st.hi);
                    lemma_rat_trans(t, ns.hi, t1);
                }
            }
        }
        ns
    }
}

impl Prim {
    /// An axis-aligned box primitive spanned by two opposite corner points,
    /// in either order, carrying a material handle. The box is padded so no
    /// axis is degenerate. The primitive is a solid: a ray starting inside
    /// it has no entry parameter and reports no hit, where a shell of six
    /// faces would report the far face.
    pub fn make_box(a: &Point3, b: &Point3, mat: usize) -> (p: Prim)
        requires
            vec3_wf(*a),
            vec3_wf(*b),
        ensures
            prim_wf(p),
            p.bbox.x == pad_interval(span(a.x as int, b.x as int)),
            p.bbox.y == pad_interval(span(a.y as int, b.y as int)),
            p.bbox.z == pad_interval(span(a.z as int, b.z as int)),
            p.mat == mat,
    {
        Prim { bbox: Aabb::from_points(*a, *b), mat }
    }

    /// The primitive translated by `offset`.
    pub fn translated(&self, offset: &Vec3) -> (p: Prim)
        requires
            prim_wf(*self),
            vec3_wf(*offset),
            -COORD_LIMIT <= self.bbox.x.min + offset.x <= COORD_LIMIT,
            -COORD_LIMIT <= self.bbox.x.max + offset.x <= COORD_LIMIT,
            -COORD_LIMIT <= self.bbox.y.min + offset.y <= COORD_LIMIT,
            -COORD_LIMIT <= self.bbox.y.max + offset.y <= COORD_LIMIT,
            -COORD_LIMIT <= self.bbox.z.min + offset.z <= COORD_LIMIT,
            -COORD_LIMIT <= self.bbox.z.max + offset.z <= COORD_LIMIT,
        ensures
            prim_wf(p),
            p.bbox.x.min == self.bbox.x.min + offset.x && p.bbox.x.max == self.bbox.x.max
                + offset.x,
            p.bbox.y.min == self.bbox.y.min + offset.y && p.bbox.y.max == self.bbox.y.max
                + offset.y,
            p.bbox.z.min == self.bbox.z.min + offset.z && p.bbox.z.max == self.bbox.z.max
                + offset.z,
            p.mat == self.mat,
    {
        Prim { bbox: self.bbox.shifted(offset), mat: self.mat }
    }

    /// The primitive's bounding volume.
    pub fn bounding_box(&self) -> (r: Aabb)
        ensures
            r == self.bbox,
    {
        self.bbox
    }

    /// The density with which this primitive can be sampled as a light
    /// source from `origin`: box primitives are not samplable lights, so
    /// they report zero, as non-light geometry does by default.
    pub fn pdf_value(&self, origin: &Point3, direction: &Vec3) -> (r: u64)
        ensures
            r == 0,
    {
        let _ = origin;
        let _ = direction;
        0
    }

    /// The fallback sampling direction of geometry that is not a usable
    /// light: an arbitrary fixed unit vector.
    pub fn random(&self, origin: &Point3) -> (v: Vec3)
        ensures
            v == (Vec3 { x: 1, y: 0, z: 0 }),
    {
        let _ = origin;
        Vec3 { x: 1, y: 0, z: 0 }
    }

    /// Intersect the ray with the primitive over the open parameter window
    /// `(ray_t.min, ray_t.max)`. The contract characterizes both outcomes
    /// exactly; see `prim_hit_matches`.
    pub fn hit(&self, r: &Ray, ray_t: &ParamRange) -> (res: Option<HitRecord>)
        requires
            prim_wf(*self),
            ray_wf(*r),
            range_wf(*ray_t),
        ensures
            prim_hit_matches(*self, *r, *ray_t, res),
            res == prim_hit_spec(*self, *r, *ray_t),
    {
        let st0 = FoldState {
            ok: true,
            has: false,
            lo: Rat { num: 0, den: 1 },
            hi: Rat { num: 0, den: 1 },
            ax: 0,
        };
        let s1 = fold_axis(&self.bbox.x, r.orig.x, r.dir.x, 0, st0);
        let s2 = fold_axis(&self.bbox.y, r.orig.y, r.dir.y, 1, s1);
        let s3 = fold_axis(&self.bbox.z, r.orig.z, r.dir.z, 2, s2);
        proof {
            assert forall|t: Rat| rat_wf(t) implies (fold_sat(s3, t) <==> aabb_contains_at(
                self.bbox,
                *r,
                t,
            )) by {
                assert(fold_sat(st0, t));
            }
        }
        if !s3.ok {
            proof {
                assert forall|t: Rat| #[trigger] hits_box_at(self.bbox, *r, t) implies !(rat_lt(
                    ray_t.min,
                    t,
                ) && rat_lt(t, ray_t.max)) by {
                    assert(!fold_sat(s3, t));
                }
            }
            None
        } else if !s3.has {
            proof {
                assert forall|t: Rat| #[trigger] hits_box_at(self.bbox, *r, t) implies !(rat_lt(
                    ray_t.min,
                    t,
                ) && rat_lt(t, ray_t.max)) by {
                    if rat_lt(ray_t.min, t) && rat_lt(t, ray_t.max) {
                        assert(fold_sat(s3, ray_t.min));
                        assert(aabb_contains_at(self.bbox, *r, ray_t.min));
                    }
                }
            }
            None
        } else if s3.hi.lt(&s3.lo) {
            proof {
                assert forall|t: Rat| #[trigger] hits_box_at(self.bbox, *r, t) implies !(rat_lt(
                    ray_t.min,
                    t,
                ) && rat_lt(t, ray_t.max)) by {
                    assert(!fold_sat(s3, t)) by {
                        lemma_rat_trans(s3.lo, t, s3.hi);
                    }
                }
            }
            None
        } else {
            proof {
                assert(fold_sat(s3, s3.lo));
                assert(hits_box_at(self.bbox, *r, s3.lo));
            }
            if ray_t.surrounds(&s3.lo) {
                let dax = r.dir.axis(s3.ax);
                let sign: i64 = if dax > 0 {
                    -1
                } else {
                    1
                };
                let normal = if s3.ax == 0 {
                    Vec3 { x: sign, y: 0, z: 0 }
                } else if s3.ax == 1 {
                    Vec3 { x: 0, y: sign, z: 0 }
                } else {
                    Vec3 { x: 0, y: 0, z: sign }
                };
                proof {
                    if s3.ax == 0 {
                        lemma_unit_axis_dot(sign, r.dir.x, r.dir.y, r.dir.z);
                    } else if s3.ax == 1 {
                        lemma_unit_axis_dot(sign, r.dir.y, r.dir.x, r.dir.z);
                    } else {
                        lemma_unit_axis_dot(sign, r.dir.z, r.dir.x, r.dir.y);
                    }
                    assert(normal_against(normal, r.dir));
                }
                let at = r.at(&s3.lo);
                let p = Vec3 {
                    x: Vec3::clamp_coord(div_floor(at.xn, at.den)),
                    y: Vec3::clamp_coord(div_floor(at.yn, at.den)),
                    z: Vec3::clamp_coord(div_floor(at.zn, at.den)),
                };
                proof {
                    assert(p == hit_point_spec(*r, s3.lo));
                    assert(normal == entry_normal_spec(*r, s3.ax as int));
                }
                Some(HitRecord { t: s3.lo, p, normal, front_face: true, mat: self.mat })
            } else {
                proof {
                    assert forall|t: Rat| #[trigger] hits_box_at(self.bbox, *r, t) implies !(
                    rat_lt(ray_t.min, t) && rat_lt(t, ray_t.max)) by {
                        if rat_lt(ray_t.min, t) && rat_lt(t, ray_t.max) {
                            assert(aabb_contains_at(self.bbox, *r, t));
                            assert(fold_sat(s3, t));
                            assert(rat_le(s3.lo, t));
                            assert(!rat_lt(s3.lo, t)) by {
                                if rat_lt(s3.lo, t) {
                                    assert(aabb_contains_at(self.bbox, *r, s3.lo));
                                }
                            }
                            if !rat_lt(ray_t.min, s3.lo) {
                                lemma_rat_trans(t, s3.lo, ray_t.min);
                                lemma_rat_trans(t, ray_t.min, t);
                            } else {
                                lemma_rat_trans(t, ray_t.max, s3.lo);
                                lemma_rat_trans(t, s3.lo, t);
                            }
                        }
                    }
                }
                None
            }
        }
    }
}

/// Whether primitive `j` of the sequence is struck at parameter `t`, with `t`
/// strictly inside the queried window.
pub open spec fn prim_hits_at(prims: Seq<Prim>, j: int, r: Ray, range: ParamRange, t: Rat) -> bool {
    &&& 0 <= j < prims.len()
    &&& hits_box_at(prims[j].bbox, r, t)
    &&& rat_lt(range.min, t)
    &&& rat_lt(t, range.max)
}

/// The closest-hit specification: what any correct intersection of a set of
/// primitives must return. `None` means no primitive is struck inside the
/// window; a record carries the least struck parameter, realized by some
/// primitive whose material the record carries.
pub open spec fn is_closest_hit(
    prims: Seq<Prim>,
    r: Ray,
    range: ParamRange,
    res: Option<HitRecord>,
) -> bool {
    match res {
        None => forall|j: int, t: Rat| !(#[trigger] prim_hits_at(prims, j, r, range, t)),
        Some(rec) => {
            &&& entry_bounded(rec.t)
            &&& rec.front_face == true
            &&& normal_against(rec.normal, r.dir)
            &&& vec3_wf(rec.p)
            &&& exists|j: int|
                #[trigger] prim_hits_at(prims, j, r, range, rec.t) && prims[j].mat == rec.mat
            &&& forall|j: int, t: Rat|
                #[trigger] prim_hits_at(prims, j, r, range, t) ==> rat_le(rec.t, t)
        },
    }
}

/// A flat collection of primitives with the union of their boxes cached.
pub struct HittableList {
    pub objects: Vec<Prim>,
    pub bbox: Aabb,
}

/// Validity: every member is valid and the cached box contains each member's
/// box.
pub open spec fn list_wf(l: HittableList) -> bool {
    &&& aabb_wf(l.bbox)
    &&& forall|j: int|
        0 <= j < l.objects@.len() ==> prim_wf(#[trigger] l.objects@[j]) && aabb_contains_box(
            l.bbox,
            l.objects@[j].bbox,
        )
}

impl HittableList {
    /// An empty collection.
    pub fn new() -> (r: HittableList)
        ensures
            list_wf(r),
            r.objects@.len() == 0,
    {
        HittableList { objects: Vec::new(), bbox: Aabb::empty() }
    }

    /// A collection holding one primitive.
    pub fn with_object(object: Prim) -> (r: HittableList)
        requires
            prim_wf(object),
        ensures
            list_wf(r),
            r.objects@ == seq![object],
    {
        let mut list = HittableList::new();
        list.add(object);
        proof {
            assert(list.objects@ =~= seq![object]);
        }
        list
    }

    /// Remove every primitive.
    pub fn clear(&mut self)
        requires
            list_wf(*old(self)),
        ensures
            list_wf(*final(self)),
            final(self).objects@.len() == 0,
    {
        self.objects.clear();
    }

    /// Append a primitive, growing the cached box to keep containing every
    /// member.
    pub fn add(&mut self, object: Prim)
        requires
            list_wf(*old(self)),
            prim_wf(object),
        ensures
            list_wf(*final(self)),
            final(self).objects@ == old(self).objects@.push(object),
            final(self).bbox == crate::aabb::box_union(old(self).bbox, object.bbox),
    {
        self.bbox = Aabb::surrounding_box(&self.bbox, &object.bbox);
        self.objects.push(object);
    }

    /// The union of the members' bounding volumes.
    pub fn bounding_box(&self) -> (r: Aabb)
        ensures
            r == self.bbox,
    {
        self.bbox
    }

    /// The average of the members' light-sampling densities (zero for box
    /// primitives, which are not usable lights).
    pub fn pdf_value(&self, origin: &Point3, direction: &Vec3) -> (r: u64)
        requires
            list_wf(*self),
        ensures
            r == 0,
    {
        let n = self.objects.len();
        if n == 0 {
            return 0;
        }
        let mut acc: u64 = 0;
        let mut k: usize = 0;
        while k < n
            invariant
                k <= n == self.objects@.len(),
                list_wf(*self),
                acc == 0,
            decreases n - k,
        {
            let contribution = self.objects[k].pdf_value(origin, direction);
            acc = acc + contribution;
            k = k + 1;
        }
        acc
    }

    /// A sampling direction toward a random member (the fixed fallback
    /// direction, since box primitives are not usable lights).
    pub fn random(&self, rng: &mut crate::rng::RngState, origin: &Point3) -> (v: Vec3)
        requires
            list_wf(*self),
        ensures
            v == (Vec3 { x: 1, y: 0, z: 0 }),
    {
        let n = self.objects.len();
        if n == 0 {
            return Vec3 { x: 1, y: 0, z: 0 };
        }
        let idx = crate::rng::random_int(rng, 0, n - 1);
        self.objects[idx].random(origin)
    }

    /// A copy of the member primitives (for consumers that keep their own
    /// arena, such as the spatial index and the light-targeted distribution).
    pub fn clone_objects(&self) -> (r: Vec<Prim>)
        ensures
            r@ == self.objects@,
    {
        let n = self.objects.len();
        let mut out: Vec<Prim> = Vec::new();
        let mut k: usize = 0;
        while k < n
            invariant
                k <= n == self.objects@.len(),
                out@ == self.objects@.take(k as int),
            decreases n - k,
        {
            proof {
                assert(self.objects@.take(k as int + 1) =~= self.objects@.take(k as int).push(
                    self.objects@[k as int],
                ));
            }
            out.push(self.objects[k]);
            k = k + 1;
        }
        proof {
            assert(out@ =~= self.objects@);
        }
        out
    }

    /// Brute-force closest hit: scan every primitive, narrowing the window to
    /// the closest parameter struck so far.
    pub fn hit(&self, r: &Ray, ray_t: &ParamRange) -> (res: Option<HitRecord>)
        requires
            list_wf(*self),
            ray_wf(*r),
            range_wf(*ray_t),
        ensures
            is_closest_hit(self.objects@, *r, *ray_t, res),
    {
        let ghost all = self.objects@;
        let n = self.objects.len();
        let mut result: Option<HitRecord> = None;
        let mut closest: Rat = ray_t.max;
        let mut i: usize = 0;
        while i < n
            invariant
                n == all.len(),
                self.objects@ == all,
                list_wf(*self),
                ray_wf(*r),
                range_wf(*ray_t),
                i <= n,
                closest == (match result {
                    Option::None => ray_t.max,
                    Option::Some(rec) => rec.t,
                }),
                rat_wf(closest),
                is_closest_hit(all.take(i as int), *r, *ray_t, result),
            decreases n - i,
        {
            let window = ParamRange { min: ray_t.min, max: closest };
            let got = self.objects[i].hit(r, &window);
            proof {
                assert(all.take(i as int + 1) =~= all.take(i as int).push(all[i as int]));
            }
            match got {
                Option::Some(rec) => {
                    proof {
                        lemma_step_some(all, i as int, *r, *ray_t, window, result, rec);
                    }
                    closest = rec.t;
                    result = Some(rec);
                },
                Option::None => {
                    proof {
                        lemma_step_none(all, i as int, *r, *ray_t, window, result);
                    }
                },
            }
            i = i + 1;
        }
        proof {
            assert(all.take(n as int) =~= all);
        }
        result
    }
}

/// Extending a closest-hit prefix by a primitive that was struck inside the
/// narrowed window: the new record is the closest over the longer prefix.
proof fn lemma_step_some(
    all: Seq<Prim>,
    i: int,
    r: Ray,
    range: ParamRange,
    window: ParamRange,
    prev: Option<HitRecord>,
    rec: HitRecord,
)
    requires
        0 <= i < all.len(),
        range_wf(range),
        window.min == range.min,
        window.max == (match prev {
            Option::None => range.max,
            Option::Some(p) => p.t,
        }),
        is_closest_hit(all.take(i), r, range, prev),
        prim_hit_matches(all[i], r, window, Some(rec)),
    ensures
        is_closest_hit(all.take(i + 1), r, range, Some(rec)),
{
    let pre = all.take(i);
    let post = all.take(i + 1);
    assert(post =~= pre.push(all[i]));
    // The new record is a genuine hit of primitive i inside the full window.
    match prev {
        Option::None => {
            assert(rat_lt(rec.t, range.max));
        },
        Option::Some(p) => {
            let jw = choose|j: int|
                #[trigger] prim_hits_at(pre, j, r, range, p.t) && pre[j].mat == p.mat;
            lemma_rat_trans(rec.t, p.t, range.max);
        },
    }
    assert(prim_hits_at(post, i, r, range, rec.t));
    // Minimality over the longer prefix.
    assert forall|j: int, t: Rat| #[trigger] prim_hits_at(post, j, r, range, t) implies rat_le(
        rec.t,
        t,
    ) by {
        if j < i {
            assert(prim_hits_at(pre, j, r, range, t));
            match prev {
                Option::None => {},
                Option::Some(p) => {
                    lemma_rat_trans(rec.t, p.t, t);
                },
            }
        } else {
            // Same primitive: entry parameters are unique up to equality.
            if rat_lt(t, rec.t) {
                assert(aabb_contains_at(all[i].bbox, r, t));
                assert(!aabb_contains_at(all[i].bbox, r, t));
            }
        }
    }
}

/// Translating a primitive and the ray's origin by the same offset
/// conjugates the hit exactly: the entry parameter, normal, face and
/// material are identical, and the hit point is the original's floor point
/// translated by the offset (then forced into the coordinate budget, as
/// every hit point is).
pub proof fn lemma_translated_hit(p: Prim, q: Prim, off: Vec3, r: Ray, rr: Ray, range: ParamRange)
    requires
        prim_wf(p),
        prim_wf(q),
        ray_wf(r),
        ray_wf(rr),
        vec3_wf(off),
        q.mat == p.mat,
        q.bbox.x.min == p.bbox.x.min + off.x && q.bbox.x.max == p.bbox.x.max + off.x,
        q.bbox.y.min == p.bbox.y.min + off.y && q.bbox.y.max == p.bbox.y.max + off.y,
        q.bbox.z.min == p.bbox.z.min + off.z && q.bbox.z.max == p.bbox.z.max + off.z,
        rr.orig.x == r.orig.x + off.x && rr.orig.y == r.orig.y + off.y && rr.orig.z == r.orig.z
            + off.z,
        rr.dir == r.dir,
        rr.tm == r.tm,
    ensures
        (prim_hit_spec(q, rr, range) is Some) == (prim_hit_spec(p, r, range) is Some),
        (match (prim_hit_spec(p, r, range), prim_hit_spec(q, rr, range)) {
            (Some(rec), Some(qrec)) => {
                &&& qrec.t == rec.t
                &&& qrec.normal == rec.normal
                &&& qrec.front_face == rec.front_face
                &&& qrec.mat == rec.mat
                &&& qrec.p.x == clamp_coord_spec(
                    (r.orig.x * rec.t.den + rec.t.num * r.dir.x) / (rec.t.den as int) + off.x,
                )
                &&& qrec.p.y == clamp_coord_spec(
                    (r.orig.y * rec.t.den + rec.t.num * r.dir.y) / (rec.t.den as int) + off.y,
                )
                &&& qrec.p.z == clamp_coord_spec(
                    (r.orig.z * rec.t.den + rec.t.num * r.dir.z) / (rec.t.den as int) + off.z,
                )
            },
            (None, None) => true,
            _ => false,
        }),
{
    lemma_translated_fold_axis(q.bbox.x, p.bbox.x, off.x as int, rr.orig.x as int, r.orig.x as int, r.dir.x as int);
    lemma_translated_fold_axis(q.bbox.y, p.bbox.y, off.y as int, rr.orig.y as int, r.orig.y as int, r.dir.y as int);
    lemma_translated_fold_axis(q.bbox.z, p.bbox.z, off.z as int, rr.orig.z as int, r.orig.z as int, r.dir.z as int);
    assert(prim_fold_spec(q, rr) == prim_fold_spec(p, r));
    let s3 = prim_fold_spec(p, r);
    if !(!s3.ok || !s3.has || rat_lt(s3.hi, s3.lo)) && rat_lt(range.min, s3.lo) && rat_lt(
        s3.lo,
        range.max,
    ) {
        let t = s3.lo;
        // The fold only ever builds positive denominators.
        let st0 = FoldState {
            ok: true,
            has: false,
            lo: Rat { num: 0, den: 1 },
            hi: Rat { num: 0, den: 1 },
            ax: 0,
        };
        let s1 = fold_axis_spec(p.bbox.x, r.orig.x as int, r.dir.x as int, 0, st0);
        let s2 = fold_axis_spec(p.bbox.y, r.orig.y as int, r.dir.y as int, 1, s1);
        assert(s1.lo.den > 0 && s1.hi.den > 0);
        assert(s2.lo.den > 0 && s2.hi.den > 0);
        assert(t.den > 0);
        vstd::arithmetic::div_mod::lemma_hoist_over_denominator(
            r.orig.x * t.den + t.num * r.dir.x,
            off.x as int,
            t.den as nat,
        );
        assert((r.orig.x * t.den + t.num * r.dir.x) / (t.den as int) + off.x == (r.orig.x * t.den
            + t.num * r.dir.x + off.x * t.den) / (t.den as int));
        assert(rr.orig.x * t.den + t.num * rr.dir.x == r.orig.x * t.den + t.num * r.dir.x + off.x
            * t.den) by (nonlinear_arith)
            requires
                rr.orig.x == r.orig.x + off.x,
                rr.dir == r.dir,
        ;
        vstd::arithmetic::div_mod::lemma_hoist_over_denominator(
            r.orig.y * t.den + t.num * r.dir.y,
            off.y as int,
            t.den as nat,
        );
        assert((r.orig.y * t.den + t.num * r.dir.y) / (t.den as int) + off.y == (r.orig.y * t.den
            + t.num * r.dir.y + off.y * t.den) / (t.den as int));
        assert(rr.orig.y * t.den + t.num * rr.dir.y == r.orig.y * t.den + t.num * r.dir.y + off.y
            * t.den) by (nonlinear_arith)
            requires
                rr.orig.y == r.orig.y + off.y,
                rr.dir == r.dir,
        ;
        vstd::arithmetic::div_mod::lemma_hoist_over_denominator(
            r.orig.z * t.den + t.num * r.dir.z,
            off.z as int,
            t.den as nat,
        );
        assert((r.orig.z * t.den + t.num * r.dir.z) / (t.den as int) + off.z == (r.orig.z * t.den
            + t.num * r.dir.z + off.z * t.den) / (t.den as int));
        assert(rr.orig.z * t.den + t.num * rr.dir.z == r.orig.z * t.den + t.num * r.dir.z + off.z
            * t.den) by (nonlinear_arith)
            requires
                rr.orig.z == r.orig.z + off.z,
                rr.dir == r.dir,
        ;
    }
}

/// One axis of the slab fold is invariant under translating the slab and
/// the ray's origin together.
proof fn lemma_translated_fold_axis(qiv: Interval, piv: Interval, off: int, qo: int, po: int, d: int)
    requires
        qiv.min == piv.min + off && qiv.max == piv.max + off,
        qo == po + off,
    ensures
        forall|axis: int, st: FoldState|
            #[trigger] fold_axis_spec(qiv, qo, d, axis, st) == fold_axis_spec(
                piv,
                po,
                d,
                axis,
                st,
            ),
{
}

/// Extending a closest-hit prefix by a primitive the narrowed window missed:
/// the previous result stays closest over the longer prefix.
proof fn lemma_step_none(
    all: Seq<Prim>,
    i: int,
    r: Ray,
    range: ParamRange,
    window: ParamRange,
    prev: Option<HitRecord>,
)
    requires
        0 <= i < all.len(),
        range_wf(range),
        window.min == range.min,
        window.max == (match prev {
            Option::None => range.max,
            Option::Some(p) => p.t,
        }),
        is_closest_hit(all.take(i), r, range, prev),
        prim_hit_matches(all[i], r, window, None::<HitRecord>),
    ensures
        is_closest_hit(all.take(i + 1), r, range, prev),
{
    let pre = all.take(i);
    let post = all.take(i + 1);
    assert(post =~= pre.push(all[i]));
    match prev {
        Option::None => {
            assert forall|j: int, t: Rat| !(#[trigger] prim_hits_at(post, j, r, range, t)) by {
                if prim_hits_at(post, j, r, range, t) {
                    if j < i {
                        assert(prim_hits_at(pre, j, r, range, t));
                    } else {
                        assert(hits_box_at(all[i].bbox, r, t));
                    }
                }
            }
        },
        Option::Some(p) => {
            let jw = choose|j: int|
                #[trigger] prim_hits_at(pre, j, r, range, p.t) && pre[j].mat == p.mat;
            assert(prim_hits_at(post, jw, r, range, p.t) && post[jw].mat == p.mat);
            assert forall|j: int, t: Rat| #[trigger] prim_hits_at(post, j, r, range, t) implies
                rat_le(p.t, t) by {
                if j < i {
                    assert(prim_hits_at(pre, j, r, range, t));
                } else {
                    assert(hits_box_at(all[i].bbox, r, t));
                    if rat_lt(t, p.t) {
                        assert(prim_hits_at(all.take(i + 1), i, r, window, t) || true);
                        assert(rat_lt(window.min, t) && rat_lt(t, window.max));
                    }
                }
            }
        },
    }
}

} // verus!
