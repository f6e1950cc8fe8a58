//! Rays and the rational parameter ranges that intersection queries use.

use vstd::prelude::*;

use crate::interval::COORD_LIMIT;
use crate::rat::{rat_le, rat_lt, rat_wf, Rat};
use crate::vec3::{vec3_wf, Point3, Vec3};

verus! {

/// A half-line: origin, direction and a time of cast (for motion blur the
/// time is handed through to time-dependent geometry; the box primitives of
/// this crate ignore it). Immutable once constructed.
#[derive(Debug, Clone, Copy)]
pub struct Ray {
    pub orig: Point3,
    pub dir: Vec3,
    pub tm: i64,
}

/// Validity: origin and direction stay within the coordinate budget.
pub open spec fn ray_wf(r: Ray) -> bool {
    vec3_wf(r.orig) && vec3_wf(r.dir)
}

/// A point of the ray at parameter `t`, as exact rationals over one common
/// denominator.
#[derive(Debug, Clone, Copy)]
pub struct RatPoint {
    pub xn: i64,
    pub yn: i64,
    pub zn: i64,
    pub den: i64,
}

impl Ray {
    /// A ray from `origin` along `direction`, cast at `time`.
    pub fn new(origin: Point3, direction: Vec3, time: i64) -> (r: Ray)
        ensures
            r.orig == origin,
            r.dir == direction,
            r.tm == time,
    {
        Ray { orig: origin, dir: direction, tm: time }
    }

    /// The ray's origin.
    pub fn origin(&self) -> (r: &Point3)
        ensures
            r == self.orig,
    {
        &self.orig
    }

    /// The ray's direction.
    pub fn direction(&self) -> (r: &Vec3)
        ensures
            r == self.dir,
    {
        &self.dir
    }

    /// The ray's time of cast.
    pub fn time(&self) -> (r: i64)
        ensures
            r == self.tm,
    {
        self.tm
    }

    /// The point `origin + t * direction`, exactly: each coordinate is
    /// `orig * t.den + t.num * dir` over the denominator `t.den`.
    pub fn at(&self, t: &Rat) -> (p: RatPoint)
        requires
            ray_wf(*self),
            rat_wf(*t),
            -0x8000_0008 <= t.num <= 0x8000_0008,
            t.den <= 0x4000_0000,
        ensures
            p.den == t.den,
            p.xn == self.orig.x * t.den + t.num * self.dir.x,
            p.yn == self.orig.y * t.den + t.num * self.dir.y,
            p.zn == self.orig.z * t.den + t.num * self.dir.z,
            -0x4000_0000_0000_0000 <= p.xn <= 0x4000_0000_0000_0000,
            -0x4000_0000_0000_0000 <= p.yn <= 0x4000_0000_0000_0000,
            -0x4000_0000_0000_0000 <= p.zn <= 0x4000_0000_0000_0000,
    {
        proof {
            lemma_at_bound(self.orig.x, self.dir.x, t.num, t.den);
            lemma_at_bound(self.orig.y, self.dir.y, t.num, t.den);
            lemma_at_bound(self.orig.z, self.dir.z, t.num, t.den);
        }
        RatPoint {
            xn: self.orig.x * t.den + t.num * self.dir.x,
            yn: self.orig.y * t.den + t.num * self.dir.y,
            zn: self.orig.z * t.den + t.num * self.dir.z,
            den: t.den,
        }
    }
}

/// Evaluating a bounded ray at a slab-bounded parameter stays inside `i64`.
proof fn lemma_at_bound(o: i64, d: i64, tn: i64, td: i64)
    by (nonlinear_arith)
    requires
        -0x4000_0000 <= o <= 0x4000_0000,
        -0x4000_0000 <= d <= 0x4000_0000,
        -0x8000_0008 <= tn <= 0x8000_0008,
        0 < td <= 0x4000_0000,
    ensures
        -0x1000_0000_0000_0000 <= o * td <= 0x1000_0000_0000_0000,
        -0x2000_0002_0000_0000 <= tn * d <= 0x2000_0002_0000_0000,
        -0x4000_0000_0000_0000 <= o * td + tn * d <= 0x4000_0000_0000_0000,
{
}

/// A closed range of ray parameters `[min, max]`, with exact rational
/// endpoints.
#[derive(Debug, Clone, Copy)]
pub struct ParamRange {
    pub min: Rat,
    pub max: Rat,
}

/// Validity of a parameter range.
pub open spec fn range_wf(r: ParamRange) -> bool {
    rat_wf(r.min) && rat_wf(r.max)
}

impl ParamRange {
    /// The range `[min, max]`.
    pub fn new(min: Rat, max: Rat) -> (r: ParamRange)
        requires
            rat_wf(min),
            rat_wf(max),
        ensures
            range_wf(r),
            r.min == min,
            r.max == max,
    {
        ParamRange { min, max }
    }

    /// Whether `t` lies in the closed range.
    pub fn contains(&self, t: &Rat) -> (r: bool)
        requires
            range_wf(*self),
            rat_wf(*t),
        ensures
            r == (rat_le(self.min, *t) && rat_le(*t, self.max)),
    {
        self.min.le(t) && t.le(&self.max)
    }

    /// Whether `t` lies strictly inside the range.
    pub fn surrounds(&self, t: &Rat) -> (r: bool)
        requires
            range_wf(*self),
            rat_wf(*t),
        ensures
            r == (rat_lt(self.min, *t) && rat_lt(*t, self.max)),
    {
        self.min.lt(t) && t.lt(&self.max)
    }
}

} // verus!
