//! Axis-aligned bounding boxes and the ray-slab hit test.
//!
//! A box is three coordinate intervals, one per axis. The hit test clips the
//! queried parameter range against each axis slab with exact rational
//! arithmetic; its contract characterizes the result completely: the test
//! returns true exactly when some parameter in the closed query range puts
//! the ray inside the closed box. A direction component of exactly zero
//! constrains nothing when the origin lies within that axis' slab and rules
//! the box out otherwise — the one policy applied uniformly.

use vstd::prelude::*;

use crate::interval::{interval_wf, Interval, COORD_LIMIT};
use crate::rat::{rat_le, rat_lt, rat_wf, lemma_rat_trans, Rat};
use crate::ray::{range_wf, ray_wf, ParamRange, Ray};
use crate::vec3::{vec3_wf, Vec3};

verus! {

/// A box: one closed coordinate interval per axis.
#[derive(Debug, Clone, Copy)]
pub struct Aabb {
    pub x: Interval,
    pub y: Interval,
    pub z: Interval,
}

/// Validity: all three axis intervals are within the coordinate budget.
pub open spec fn aabb_wf(b: Aabb) -> bool {
    interval_wf(b.x) && interval_wf(b.y) && interval_wf(b.z)
}

/// The axis interval selected by `axis` (0 is x, 1 is y, 2 is z).
pub open spec fn axis_of(b: Aabb, axis: int) -> Interval {
    if axis == 0 {
        b.x
    } else if axis == 1 {
        b.y
    } else {
        b.z
    }
}

/// Whether `t` lies in the closed parameter range.
pub open spec fn range_contains(range: ParamRange, t: Rat) -> bool {
    rat_le(range.min, t) && rat_le(t, range.max)
}

/// Whether the ray coordinate `o + t * d` lies within the closed slab
/// `[iv.min, iv.max]`, written multiplied through by the (positive)
/// denominator of `t`.
pub open spec fn in_slab_closed(iv: Interval, o: int, d: int, t: Rat) -> bool {
    iv.min * t.den <= o * t.den + t.num * d && o * t.den + t.num * d <= iv.max * t.den
}

/// Whether the ray coordinate `o + t * d` lies strictly inside the open slab
/// `(iv.min, iv.max)`.
pub open spec fn in_slab_strict(iv: Interval, o: int, d: int, t: Rat) -> bool {
    iv.min * t.den < o * t.den + t.num * d && o * t.den + t.num * d < iv.max * t.den
}

/// Whether the ray's point at parameter `t` lies in the closed box.
pub open spec fn aabb_contains_at(b: Aabb, r: Ray, t: Rat) -> bool {
    &&& in_slab_closed(b.x, r.orig.x as int, r.dir.x as int, t)
    &&& in_slab_closed(b.y, r.orig.y as int, r.dir.y as int, t)
    &&& in_slab_closed(b.z, r.orig.z as int, r.dir.z as int, t)
}

/// Whether the ray's point at parameter `t` lies strictly inside the box.
pub open spec fn aabb_interior_at(b: Aabb, r: Ray, t: Rat) -> bool {
    &&& in_slab_strict(b.x, r.orig.x as int, r.dir.x as int, t)
    &&& in_slab_strict(b.y, r.orig.y as int, r.dir.y as int, t)
    &&& in_slab_strict(b.z, r.orig.z as int, r.dir.z as int, t)
}

/// Whether `outer` contains `inner`, axis interval by axis interval.
pub open spec fn aabb_contains_box(outer: Aabb, inner: Aabb) -> bool {
    &&& outer.x.min <= inner.x.min && inner.x.max <= outer.x.max
    &&& outer.y.min <= inner.y.min && inner.y.max <= outer.y.max
    &&& outer.z.min <= inner.z.min && inner.z.max <= outer.z.max
}

/// An interval as it comes out of degeneracy padding: widened by one on each
/// side when its extent is below one.
pub open spec fn pad_interval(iv: Interval) -> Interval {
    if iv.max - iv.min < 1 {
        Interval { min: (iv.min - 1) as i64, max: (iv.max + 1) as i64 }
    } else {
        iv
    }
}

/// The interval spanned by two coordinates in either order.
pub open spec fn span(a: int, b: int) -> Interval {
    if a <= b {
        Interval { min: a as i64, max: b as i64 }
    } else {
        Interval { min: b as i64, max: a as i64 }
    }
}

/// The axis `longest_axis` picks: x only if strictly larger than both y and
/// z, y only if strictly larger than z, else z.
pub open spec fn longest_axis_spec(b: Aabb) -> usize {
    let xs = b.x.max - b.x.min;
    let ys = b.y.max - b.y.min;
    let zs = b.z.max - b.z.min;
    if xs > ys {
        if xs > zs {
            0usize
        } else {
            2usize
        }
    } else {
        if ys > zs {
            1usize
        } else {
            2usize
        }
    }
}

/// Multiplying both sides of an order by a positive factor keeps and reflects
/// the order.
pub proof fn lemma_mul_le_cancel(a: int, b: int, c: int)
    by (nonlinear_arith)
    requires
        c > 0,
    ensures
        (a * c <= b * c) == (a <= b),
        (a * c < b * c) == (a < b),
{
}

/// Ring identities used to move a slab bound across the inequality.
proof fn lemma_slab_shift(p: int, q: int, r: int)
    by (nonlinear_arith)
    ensures
        (p - q) * r == p * r - q * r,
        p * (-q) == -(p * q),
{
}

/// Box containment carries point membership upward: a point inside `inner`
/// is inside `outer`.
pub proof fn lemma_contains_box_at(outer: Aabb, inner: Aabb, r: Ray, t: Rat)
    requires
        rat_wf(t),
        aabb_contains_box(outer, inner),
        aabb_contains_at(inner, r, t),
    ensures
        aabb_contains_at(outer, r, t),
{
    lemma_mul_le_cancel(outer.x.min as int, inner.x.min as int, t.den as int);
    lemma_mul_le_cancel(inner.x.max as int, outer.x.max as int, t.den as int);
    lemma_mul_le_cancel(outer.y.min as int, inner.y.min as int, t.den as int);
    lemma_mul_le_cancel(inner.y.max as int, outer.y.max as int, t.den as int);
    lemma_mul_le_cancel(outer.z.min as int, inner.z.min as int, t.den as int);
    lemma_mul_le_cancel(inner.z.max as int, outer.z.max as int, t.den as int);
}

/// One axis of the slab test: clip `cur` to the parameters whose ray
/// coordinate stays inside this axis' closed slab. The returned range holds
/// exactly the parameters of `cur` that satisfy the slab, for every rational.
fn clip_axis(iv: &Interval, o: i64, d: i64, cur: ParamRange) -> (nr: ParamRange)
    requires
        interval_wf(*iv),
        -COORD_LIMIT <= o <= COORD_LIMIT,
        -COORD_LIMIT <= d <= COORD_LIMIT,
        range_wf(cur),
    ensures
        range_wf(nr),
        forall|t: Rat|
            #![trigger range_contains(cur, t)]
            #![trigger range_contains(nr, t)]
            rat_wf(t) ==> (range_contains(nr, t) <==> (range_contains(cur, t) && in_slab_closed(
                *iv,
                o as int,
                d as int,
                t,
            ))),
{
    if d == 0 {
        if o < iv.min || o > iv.max {
            let nr = ParamRange { min: Rat { num: 1, den: 1 }, max: Rat { num: 0, den: 1 } };
            proof {
                assert forall|t: Rat| rat_wf(t) implies !range_contains(nr, t) && !in_slab_closed(
                    *iv,
                    o as int,
                    d as int,
                    t,
                ) by {
                    lemma_rat_trans(nr.min, t, nr.max);
                    lemma_mul_le_cancel(iv.min as int, o as int, t.den as int);
                    lemma_mul_le_cancel(o as int, iv.max as int, t.den as int);
                }
            }
            nr
        } else {
            proof {
                assert forall|t: Rat| rat_wf(t) implies in_slab_closed(*iv, o as int, d as int, t)
                    by {
                    lemma_mul_le_cancel(iv.min as int, o as int, t.den as int);
                    lemma_mul_le_cancel(o as int, iv.max as int, t.den as int);
                }
            }
            cur
        }
    } else {
        let (t0, t1): (Rat, Rat) = if d > 0 {
            (Rat { num: iv.min - o, den: d }, Rat { num: iv.max - o, den: d })
        } else {
            (Rat { num: o - iv.max, den: -d }, Rat { num: o - iv.min, den: -d })
        };
        proof {
            assert forall|t: Rat| rat_wf(t) implies (rat_le(t0, t) && rat_le(t, t1))
                == in_slab_closed(*iv, o as int, d as int, t) by {
                lemma_slab_shift(iv.min as int - o, t.den as int, 0);
                lemma_slab_shift(iv.min as int, o as int, t.den as int);
                lemma_slab_shift(iv.max as int, o as int, t.den as int);
                lemma_slab_shift(o as int, iv.max as int, t.den as int);
                lemma_slab_shift(o as int, iv.min as int, t.den as int);
                lemma_slab_shift(t.num as int, d as int, 0);
            }
        }
        let nmin = cur.min.max(t0);
        let nmax = cur.max.min(t1);
        let nr = ParamRange { min: nmin, max: nmax };
        proof {
            assert forall|t: Rat| rat_wf(t) implies (range_contains(nr, t) <==> (range_contains(
                cur,
                t,
            ) && rat_le(t0, t) && rat_le(t, t1))) by {
                lemma_rat_trans(cur.min, nr.min, t);
                lemma_rat_trans(t0, nr.min, t);
                lemma_rat_trans(t, nr.max, cur.max);
                lemma_rat_trans(t, nr.max, t1);
            }
        }
        nr
    }
}

/// Whether some parameter in the closed range puts the ray inside the
/// closed box: the exact meaning of the slab test.
pub open spec fn aabb_hit_spec(b: Aabb, r: Ray, range: ParamRange) -> bool {
    exists|t: Rat| rat_wf(t) && #[trigger] range_contains(range, t) && aabb_contains_at(b, r, t)
}

/// The smallest box containing both arguments, at the spec level.
pub open spec fn box_union(a: Aabb, b: Aabb) -> Aabb {
    Aabb {
        x: Interval {
            min: if a.x.min <= b.x.min { a.x.min } else { b.x.min },
            max: if a.x.max >= b.x.max { a.x.max } else { b.x.max },
        },
        y: Interval {
            min: if a.y.min <= b.y.min { a.y.min } else { b.y.min },
            max: if a.y.max >= b.y.max { a.y.max } else { b.y.max },
        },
        z: Interval {
            min: if a.z.min <= b.z.min { a.z.min } else { b.z.min },
            max: if a.z.max >= b.z.max { a.z.max } else { b.z.max },
        },
    }
}

impl Aabb {
    /// A box from three axis intervals, padded so no axis is degenerate.
    pub fn new(x: Interval, y: Interval, z: Interval) -> (r: Aabb)
        requires
            -COORD_LIMIT <= x.min <= COORD_LIMIT,
            -COORD_LIMIT <= x.max <= COORD_LIMIT,
            -COORD_LIMIT <= y.min <= COORD_LIMIT,
            -COORD_LIMIT <= y.max <= COORD_LIMIT,
            -COORD_LIMIT <= z.min <= COORD_LIMIT,
            -COORD_LIMIT <= z.max <= COORD_LIMIT,
        ensures
            aabb_wf(r),
            r.x == pad_interval(x),
            r.y == pad_interval(y),
            r.z == pad_interval(z),
    {
        let mut b = Aabb { x, y, z };
        b.pad_to_minimums();
        b
    }

    /// The empty box: its union with any box is that box.
    pub fn new_empty() -> (r: Aabb)
        ensures
            aabb_wf(r),
            r.x.min == COORD_LIMIT + 2 && r.x.max == -COORD_LIMIT - 2,
            r.y.min == COORD_LIMIT + 2 && r.y.max == -COORD_LIMIT - 2,
            r.z.min == COORD_LIMIT + 2 && r.z.max == -COORD_LIMIT - 2,
    {
        Aabb { x: Interval::empty(), y: Interval::empty(), z: Interval::empty() }
    }

    /// The empty box (the identity for `surrounding_box`).
    pub fn empty() -> (r: Aabb)
        ensures
            aabb_wf(r),
            r.x.min == COORD_LIMIT + 2 && r.x.max == -COORD_LIMIT - 2,
            r.y.min == COORD_LIMIT + 2 && r.y.max == -COORD_LIMIT - 2,
            r.z.min == COORD_LIMIT + 2 && r.z.max == -COORD_LIMIT - 2,
    {
        Aabb { x: Interval::empty(), y: Interval::empty(), z: Interval::empty() }
    }

    /// The box holding every admissible coordinate.
    pub fn universe() -> (r: Aabb)
        ensures
            aabb_wf(r),
            r.x.min == -COORD_LIMIT - 2 && r.x.max == COORD_LIMIT + 2,
            r.y.min == -COORD_LIMIT - 2 && r.y.max == COORD_LIMIT + 2,
            r.z.min == -COORD_LIMIT - 2 && r.z.max == COORD_LIMIT + 2,
    {
        Aabb { x: Interval::universe(), y: Interval::universe(), z: Interval::universe() }
    }

    /// The padded box spanned by two opposite corner points, whichever order
    /// they come in.
    pub fn from_points(a: Vec3, b: Vec3) -> (r: Aabb)
        requires
            vec3_wf(a),
            vec3_wf(b),
        ensures
            aabb_wf(r),
            r.x == pad_interval(span(a.x as int, b.x as int)),
            r.y == pad_interval(span(a.y as int, b.y as int)),
            r.z == pad_interval(span(a.z as int, b.z as int)),
    {
        let x = if a.x <= b.x {
            Interval::new(a.x, b.x)
        } else {
            Interval::new(b.x, a.x)
        };
        let y = if a.y <= b.y {
            Interval::new(a.y, b.y)
        } else {
            Interval::new(b.y, a.y)
        };
        let z = if a.z <= b.z {
            Interval::new(a.z, b.z)
        } else {
            Interval::new(b.z, a.z)
        };
        let mut r = Aabb { x, y, z };
        r.pad_to_minimums();
        r
    }

    /// The smallest box containing both arguments. The union is inclusive:
    /// the result contains each input box.
    pub fn surrounding_box(box0: &Aabb, box1: &Aabb) -> (r: Aabb)
        requires
            aabb_wf(*box0),
            aabb_wf(*box1),
        ensures
            aabb_wf(r),
            r == box_union(*box0, *box1),
            aabb_contains_box(r, *box0),
            aabb_contains_box(r, *box1),
            r.x.min == if box0.x.min <= box1.x.min { box0.x.min } else { box1.x.min },
            r.x.max == if box0.x.max >= box1.x.max { box0.x.max } else { box1.x.max },
            r.y.min == if box0.y.min <= box1.y.min { box0.y.min } else { box1.y.min },
            r.y.max == if box0.y.max >= box1.y.max { box0.y.max } else { box1.y.max },
            r.z.min == if box0.z.min <= box1.z.min { box0.z.min } else { box1.z.min },
            r.z.max == if box0.z.max >= box1.z.max { box0.z.max } else { box1.z.max },
    {
        Aabb {
            x: Interval::from_two(&box0.x, &box1.x),
            y: Interval::from_two(&box0.y, &box1.y),
            z: Interval::from_two(&box0.z, &box1.z),
        }
    }

    /// The interval of the chosen axis (0 is x, 1 is y, 2 is z).
    pub fn axis_interval(&self, axis: usize) -> (r: Interval)
        requires
            axis < 3,
        ensures
            r == axis_of(*self, axis as int),
    {
        if axis == 0 {
            self.x
        } else if axis == 1 {
            self.y
        } else {
            self.z
        }
    }

    /// The axis of largest extent; ties between x and either other axis go to
    /// the later axis, and z wins an exact tie with y.
    pub fn longest_axis(&self) -> (r: usize)
        requires
            aabb_wf(*self),
        ensures
            r < 3,
            r == longest_axis_spec(*self),
    {
        let x_size = self.x.size();
        let y_size = self.y.size();
        let z_size = self.z.size();
        if x_size > y_size {
            if x_size > z_size {
                0
            } else {
                2
            }
        } else {
            if y_size > z_size {
                1
            } else {
                2
            }
        }
    }

    /// Widen any axis whose extent is below the minimum width, so the slab
    /// test never faces a zero-thickness box.
    fn pad_to_minimums(&mut self)
        requires
            -COORD_LIMIT <= old(self).x.min <= COORD_LIMIT,
            -COORD_LIMIT <= old(self).x.max <= COORD_LIMIT,
            -COORD_LIMIT <= old(self).y.min <= COORD_LIMIT,
            -COORD_LIMIT <= old(self).y.max <= COORD_LIMIT,
            -COORD_LIMIT <= old(self).z.min <= COORD_LIMIT,
            -COORD_LIMIT <= old(self).z.max <= COORD_LIMIT,
        ensures
            aabb_wf(*final(self)),
            final(self).x == pad_interval(old(self).x),
            final(self).y == pad_interval(old(self).y),
            final(self).z == pad_interval(old(self).z),
    {
        if self.x.size() < 1 {
            self.x = self.x.expand(2);
        }
        if self.y.size() < 1 {
            self.y = self.y.expand(2);
        }
        if self.z.size() < 1 {
            self.z = self.z.expand(2);
        }
    }

    /// The box translated by `offset`.
    pub fn shifted(&self, offset: &Vec3) -> (r: Aabb)
        requires
            aabb_wf(*self),
            vec3_wf(*offset),
            -COORD_LIMIT <= self.x.min + offset.x <= COORD_LIMIT,
            -COORD_LIMIT <= self.x.max + offset.x <= COORD_LIMIT,
            -COORD_LIMIT <= self.y.min + offset.y <= COORD_LIMIT,
            -COORD_LIMIT <= self.y.max + offset.y <= COORD_LIMIT,
            -COORD_LIMIT <= self.z.min + offset.z <= COORD_LIMIT,
            -COORD_LIMIT <= self.z.max + offset.z <= COORD_LIMIT,
        ensures
            aabb_wf(r),
            r.x.min == self.x.min + offset.x && r.x.max == self.x.max + offset.x,
            r.y.min == self.y.min + offset.y && r.y.max == self.y.max + offset.y,
            r.z.min == self.z.min + offset.z && r.z.max == self.z.max + offset.z,
    {
        Aabb {
            x: self.x.shifted(offset.x),
            y: self.y.shifted(offset.y),
            z: self.z.shifted(offset.z),
        }
    }

    /// Slab test: whether some parameter in the closed range `ray_t` puts the
    /// ray inside the closed box. The contract is an exact characterization,
    /// so a false answer proves that the box is missed over the whole range.
    pub fn hit(&self, r: &Ray, ray_t: &ParamRange) -> (res: bool)
        requires
            aabb_wf(*self),
            ray_wf(*r),
            range_wf(*ray_t),
        ensures
            res == aabb_hit_spec(*self, *r, *ray_t),
            res <==> exists|t: Rat|
                rat_wf(t) && #[trigger] range_contains(*ray_t, t) && aabb_contains_at(
                    *self,
                    *r,
                    t,
                ),
    {
        let c1 = clip_axis(&self.x, r.orig.x, r.dir.x, *ray_t);
        let c2 = clip_axis(&self.y, r.orig.y, r.dir.y, c1);
        let c3 = clip_axis(&self.z, r.orig.z, r.dir.z, c2);
        let res = c3.min.le(&c3.max);
        proof {
            if res {
                let w = c3.min;
                assert(range_contains(c3, w));
                assert(range_contains(c2, w) && range_contains(c1, w) && range_contains(
                    *ray_t,
                    w,
                ) && aabb_contains_at(*self, *r, w));
            } else {
                if exists|t: Rat|
                    rat_wf(t) && #[trigger] range_contains(*ray_t, t) && aabb_contains_at(
                        *self,
                        *r,
                        t,
                    ) {
                    let t = choose|t: Rat|
                        rat_wf(t) && #[trigger] range_contains(*ray_t, t) && aabb_contains_at(
                            *self,
                            *r,
                            t,
                        );
                    assert(range_contains(c1, t));
                    assert(range_contains(c2, t));
                    assert(range_contains(c3, t));
                    lemma_rat_trans(c3.min, t, c3.max);
                }
            }
        }
        res
    }
}

/// Slab-test soundness: when the hit test reports a miss over a parameter
/// range (the negated existential is exactly `hit`'s contract for a false
/// result), no parameter of that range puts the ray strictly inside the box.
pub proof fn lemma_box_miss_has_no_interior_point(b: Aabb, r: Ray, range: ParamRange, t: Rat)
    requires
        !(exists|u: Rat|
            rat_wf(u) && #[trigger] range_contains(range, u) && aabb_contains_at(b, r, u)),
        rat_wf(t),
        range_contains(range, t),
    ensures
        !aabb_interior_at(b, r, t),
{
    if aabb_interior_at(b, r, t) {
        assert(aabb_contains_at(b, r, t));
    }
}

} // verus!
