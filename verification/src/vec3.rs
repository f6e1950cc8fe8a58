//! Integer 3-vectors: scene points, directions and offsets.
//!
//! Components are integer scene coordinates (see `COORD_LIMIT`), so sums,
//! differences, dot and cross products are exact.

use vstd::prelude::*;

use crate::interval::COORD_LIMIT;

verus! {

/// A 3-vector with integer components.
#[derive(Debug, Clone, Copy, PartialEq, Eq, Structural)]
pub struct Vec3 {
    pub x: i64,
    pub y: i64,
    pub z: i64,
}

/// A position in the scene.
pub type Point3 = Vec3;

/// Whether `n` is one of the six unit axis vectors.
pub open spec fn is_unit_axis(n: Vec3) -> bool {
    ||| n == (Vec3 { x: 1, y: 0, z: 0 })
    ||| n == (Vec3 { x: -1i64, y: 0, z: 0 })
    ||| n == (Vec3 { x: 0, y: 1, z: 0 })
    ||| n == (Vec3 { x: 0, y: -1i64, z: 0 })
    ||| n == (Vec3 { x: 0, y: 0, z: 1 })
    ||| n == (Vec3 { x: 0, y: 0, z: -1i64 })
}

/// The mirror reflection of `v` about the plane with unit axis normal `n`,
/// at the spec level: `v - 2 (v . n) n`.
pub open spec fn reflect_spec(v: Vec3, n: Vec3) -> Vec3 {
    let dot = v.x * n.x + v.y * n.y + v.z * n.z;
    Vec3 {
        x: (v.x - 2 * dot * n.x) as i64,
        y: (v.y - 2 * dot * n.y) as i64,
        z: (v.z - 2 * dot * n.z) as i64,
    }
}

/// A coordinate forced into the scene's coordinate budget, at the spec
/// level.
pub open spec fn clamp_coord_spec(x: int) -> int {
    if x < -COORD_LIMIT {
        -COORD_LIMIT as int
    } else if x > COORD_LIMIT {
        COORD_LIMIT as int
    } else {
        x
    }
}

/// Validity: every component stays within the coordinate budget.
pub open spec fn vec3_wf(v: Vec3) -> bool {
    &&& -COORD_LIMIT <= v.x <= COORD_LIMIT
    &&& -COORD_LIMIT <= v.y <= COORD_LIMIT
    &&& -COORD_LIMIT <= v.z <= COORD_LIMIT
}

impl Vec3 {
    /// The component along `axis` (0 is x, 1 is y, 2 is z).
    pub open spec fn axis_spec(self, axis: int) -> int {
        if axis == 0 {
            self.x as int
        } else if axis == 1 {
            self.y as int
        } else {
            self.z as int
        }
    }

    /// The vector `(x, y, z)`.
    pub fn new(x: i64, y: i64, z: i64) -> (r: Vec3)
        ensures
            r == (Vec3 { x, y, z }),
    {
        Vec3 { x, y, z }
    }

    /// The component along `axis` (0 is x, 1 is y, 2 is z).
    pub fn axis(&self, axis: usize) -> (r: i64)
        requires
            axis < 3,
        ensures
            r == self.axis_spec(axis as int),
    {
        if axis == 0 {
            self.x
        } else if axis == 1 {
            self.y
        } else {
            self.z
        }
    }

    /// Componentwise sum.
    pub fn add(&self, other: &Vec3) -> (r: Vec3)
        requires
            vec3_wf(*self),
            vec3_wf(*other),
        ensures
            r.x == self.x + other.x,
            r.y == self.y + other.y,
            r.z == self.z + other.z,
    {
        Vec3 { x: self.x + other.x, y: self.y + other.y, z: self.z + other.z }
    }

    /// Componentwise difference.
    pub fn sub(&self, other: &Vec3) -> (r: Vec3)
        requires
            vec3_wf(*self),
            vec3_wf(*other),
        ensures
            r.x == self.x - other.x,
            r.y == self.y - other.y,
            r.z == self.z - other.z,
    {
        Vec3 { x: self.x - other.x, y: self.y - other.y, z: self.z - other.z }
    }

    /// The opposite vector.
    pub fn neg(&self) -> (r: Vec3)
        requires
            vec3_wf(*self),
        ensures
            r.x == -self.x,
            r.y == -self.y,
            r.z == -self.z,
            vec3_wf(r),
    {
        Vec3 { x: -self.x, y: -self.y, z: -self.z }
    }

    /// Dot product (exact).
    pub fn dot(u: &Vec3, v: &Vec3) -> (r: i64)
        requires
            vec3_wf(*u),
            vec3_wf(*v),
        ensures
            r == u.x * v.x + u.y * v.y + u.z * v.z,
    {
        proof {
            lemma_coord_mul_bound(u.x, v.x);
            lemma_coord_mul_bound(u.y, v.y);
            lemma_coord_mul_bound(u.z, v.z);
        }
        u.x * v.x + u.y * v.y + u.z * v.z
    }

    /// Cross product (exact; components may exceed the coordinate budget by a
    /// factor of two, as the contract states).
    pub fn cross(u: &Vec3, v: &Vec3) -> (r: Vec3)
        requires
            vec3_wf(*u),
            vec3_wf(*v),
        ensures
            r.x == u.y * v.z - u.z * v.y,
            r.y == u.z * v.x - u.x * v.z,
            r.z == u.x * v.y - u.y * v.x,
    {
        proof {
            lemma_coord_mul_bound(u.y, v.z);
            lemma_coord_mul_bound(u.z, v.y);
            lemma_coord_mul_bound(u.z, v.x);
            lemma_coord_mul_bound(u.x, v.z);
            lemma_coord_mul_bound(u.x, v.y);
            lemma_coord_mul_bound(u.y, v.x);
        }
        Vec3 {
            x: u.y * v.z - u.z * v.y,
            y: u.z * v.x - u.x * v.z,
            z: u.x * v.y - u.y * v.x,
        }
    }

    /// The mirror reflection of `v` about the plane with unit axis normal
    /// `n`: `v - 2 (v . n) n`, which negates the component along the axis.
    pub fn reflect(v: &Vec3, n: &Vec3) -> (r: Vec3)
        requires
            vec3_wf(*v),
            is_unit_axis(*n),
        ensures
            r == reflect_spec(*v, *n),
            r.x == v.x - 2 * (v.x * n.x + v.y * n.y + v.z * n.z) * n.x,
            r.y == v.y - 2 * (v.x * n.x + v.y * n.y + v.z * n.z) * n.y,
            r.z == v.z - 2 * (v.x * n.x + v.y * n.y + v.z * n.z) * n.z,
            vec3_wf(r),
    {
        let dot = Vec3::dot(v, n);
        proof {
            lemma_axis_reflect(*v, *n, dot as int);
        }
        Vec3 { x: v.x - 2 * dot * n.x, y: v.y - 2 * dot * n.y, z: v.z - 2 * dot * n.z }
    }

    /// A coordinate forced into the scene's coordinate budget (a guard for
    /// derived points that rounding pushed to the budget's edge).
    pub fn clamp_coord(x: i64) -> (r: i64)
        ensures
            r == clamp_coord_spec(x as int),
            -COORD_LIMIT <= r <= COORD_LIMIT,
            (-COORD_LIMIT <= x <= COORD_LIMIT) ==> r == x,
    {
        if x < -COORD_LIMIT {
            -COORD_LIMIT
        } else if x > COORD_LIMIT {
            COORD_LIMIT
        } else {
            x
        }
    }

    /// Whether the vector is exactly zero (the integer analogue of the
    /// near-zero guard on degenerate scatter directions).
    pub fn near_zero(&self) -> (r: bool)
        ensures
            r == (self.x == 0 && self.y == 0 && self.z == 0),
    {
        self.x == 0 && self.y == 0 && self.z == 0
    }
}

/// Reflecting about a unit axis normal negates one component and keeps the
/// others, so the result stays within the coordinate budget.
proof fn lemma_axis_reflect(v: Vec3, n: Vec3, dot: int)
    by (nonlinear_arith)
    requires
        vec3_wf(v),
        is_unit_axis(n),
        dot == v.x * n.x + v.y * n.y + v.z * n.z,
    ensures
        -COORD_LIMIT <= dot <= COORD_LIMIT,
        -2 * COORD_LIMIT <= 2 * dot * n.x <= 2 * COORD_LIMIT,
        -2 * COORD_LIMIT <= 2 * dot * n.y <= 2 * COORD_LIMIT,
        -2 * COORD_LIMIT <= 2 * dot * n.z <= 2 * COORD_LIMIT,
        -COORD_LIMIT <= v.x - 2 * dot * n.x <= COORD_LIMIT,
        -COORD_LIMIT <= v.y - 2 * dot * n.y <= COORD_LIMIT,
        -COORD_LIMIT <= v.z - 2 * dot * n.z <= COORD_LIMIT,
{
}

/// A product of two in-budget coordinates stays well inside `i64`.
proof fn lemma_coord_mul_bound(a: i64, b: i64)
    by (nonlinear_arith)
    requires
        -COORD_LIMIT <= a <= COORD_LIMIT,
        -COORD_LIMIT <= b <= COORD_LIMIT,
    ensures
        -0x1000_0000_0000_0000 <= a * b <= 0x1000_0000_0000_0000,
{
}

} // verus!
