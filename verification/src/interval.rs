//! Closed ranges `[min, max]` over integer scene coordinates.
//!
//! Intervals bound geometry along one axis. An interval with `min > max` is
//! empty; `empty()` and `universe()` use the extreme representable coordinates
//! as sentinels, so unions (`from_two`) treat the empty interval as an
//! identity, as the renderer's box-accumulation loops expect.

use vstd::prelude::*;

verus! {

/// Largest coordinate magnitude the scene model admits. Keeping every
/// coordinate within this bound keeps all interval and slab arithmetic far
/// from `i64` overflow.
pub const COORD_LIMIT: i64 = 0x4000_0000;

/// A closed integer range `[min, max]`; empty when `min > max`.
#[derive(Debug, Clone, Copy, PartialEq, Eq, Structural)]
pub struct Interval {
    pub min: i64,
    pub max: i64,
}

/// Validity: both endpoints stay within the coordinate budget (with slack for
/// one round of degeneracy padding).
pub open spec fn interval_wf(iv: Interval) -> bool {
    -COORD_LIMIT - 2 <= iv.min <= COORD_LIMIT + 2 && -COORD_LIMIT - 2 <= iv.max <= COORD_LIMIT + 2
}

impl Interval {
    /// The range `[min, max]`.
    pub fn new(min: i64, max: i64) -> (r: Interval)
        requires
            -COORD_LIMIT <= min <= COORD_LIMIT,
            -COORD_LIMIT <= max <= COORD_LIMIT,
        ensures
            interval_wf(r),
            r.min == min,
            r.max == max,
    {
        Interval { min, max }
    }

    /// The empty range: every coordinate lies outside it.
    pub fn empty() -> (r: Interval)
        ensures
            interval_wf(r),
            r.min == COORD_LIMIT + 2,
            r.max == -COORD_LIMIT - 2,
            r.min > r.max,
    {
        Interval { min: COORD_LIMIT + 2, max: -COORD_LIMIT - 2 }
    }

    /// The range holding every admissible coordinate.
    pub fn universe() -> (r: Interval)
        ensures
            interval_wf(r),
            r.min == -COORD_LIMIT - 2,
            r.max == COORD_LIMIT + 2,
    {
        Interval { min: -COORD_LIMIT - 2, max: COORD_LIMIT + 2 }
    }

    /// Width of the range; negative when the range is empty.
    pub fn size(&self) -> (r: i64)
        requires
            interval_wf(*self),
        ensures
            r == self.max - self.min,
    {
        self.max - self.min
    }

    /// Whether `x` lies in the closed range.
    pub fn contains(&self, x: i64) -> (r: bool)
        ensures
            r == (self.min <= x && x <= self.max),
    {
        self.min <= x && x <= self.max
    }

    /// Whether `x` lies strictly inside the range.
    pub fn surrounds(&self, x: i64) -> (r: bool)
        ensures
            r == (self.min < x && x < self.max),
    {
        self.min < x && x < self.max
    }

    /// `x` forced into the closed range (for nonempty ranges).
    pub fn clamp(&self, x: i64) -> (r: i64)
        requires
            self.min <= self.max,
        ensures
            r == (if x < self.min { self.min } else if x > self.max { self.max } else { x }),
            self.min <= r <= self.max,
    {
        if x < self.min {
            self.min
        } else if x > self.max {
            self.max
        } else {
            x
        }
    }

    /// The range widened by `delta / 2` on each side.
    pub fn expand(&self, delta: i64) -> (r: Interval)
        requires
            -COORD_LIMIT - 1 <= self.min <= COORD_LIMIT + 1,
            -COORD_LIMIT - 1 <= self.max <= COORD_LIMIT + 1,
            0 <= delta <= 2,
        ensures
            interval_wf(r),
            r.min == self.min - delta / 2,
            r.max == self.max + delta / 2,
    {
        let padding = delta / 2;
        Interval { min: self.min - padding, max: self.max + padding }
    }

    /// The smallest range containing both arguments (union of the spans).
    pub fn from_two(a: &Interval, b: &Interval) -> (r: Interval)
        requires
            interval_wf(*a),
            interval_wf(*b),
        ensures
            interval_wf(r),
            r.min == if a.min <= b.min { a.min } else { b.min },
            r.max == if a.max >= b.max { a.max } else { b.max },
            r.min <= a.min && r.min <= b.min,
            r.max >= a.max && r.max >= b.max,
    {
        Interval {
            min: if a.min <= b.min { a.min } else { b.min },
            max: if a.max >= b.max { a.max } else { b.max },
        }
    }

    /// The range translated by `offset`.
    pub fn shifted(&self, offset: i64) -> (r: Interval)
        requires
            interval_wf(*self),
            -COORD_LIMIT <= self.min + offset <= COORD_LIMIT,
            -COORD_LIMIT <= self.max + offset <= COORD_LIMIT,
        ensures
            interval_wf(r),
            r.min == self.min + offset,
            r.max == self.max + offset,
    {
        Interval { min: self.min + offset, max: self.max + offset }
    }
}

} // verus!
