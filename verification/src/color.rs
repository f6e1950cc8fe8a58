//! Linear-light radiance in fixed point, and the gamma-encoded output form.
//!
//! A channel holds a non-negative radiance scaled by 2^16 (`FIX_ONE` is
//! 1.0). Products truncate at the scale and saturate at the top of `u64`;
//! sums saturate; divisions by zero are guarded to zero, which is the
//! integrator's "treat a vanishing density as zero contribution" policy. No
//! clamping happens before the final gamma encoding.

use vstd::prelude::*;

verus! {

/// The fixed-point representation of 1.0.
pub const FIX_ONE: u64 = 65536;

/// Fixed-point product, truncated at the scale and saturated at `u64::MAX`.
pub open spec fn fix_mul_spec(a: u64, b: u64) -> u64 {
    if a * b / (FIX_ONE as int) > u64::MAX {
        u64::MAX
    } else {
        (a * b / (FIX_ONE as int)) as u64
    }
}

/// Saturating sum.
pub open spec fn fix_add_spec(a: u64, b: u64) -> u64 {
    if a + b > u64::MAX {
        u64::MAX
    } else {
        (a + b) as u64
    }
}

/// Fixed-point quotient, truncated, saturated, and zero when the divisor is
/// zero.
pub open spec fn fix_div_spec(a: u64, b: u64) -> u64 {
    if b == 0 {
        0
    } else if a * (FIX_ONE as int) / (b as int) > u64::MAX {
        u64::MAX
    } else {
        (a * (FIX_ONE as int) / (b as int)) as u64
    }
}

/// Fixed-point product.
pub fn fix_mul(a: u64, b: u64) -> (r: u64)
    ensures
        r == fix_mul_spec(a, b),
{
    proof {
        lemma_u64_mul_fits_u128(a, b);
    }
    let wide = (a as u128) * (b as u128) / (FIX_ONE as u128);
    if wide > u64::MAX as u128 {
        u64::MAX
    } else {
        wide as u64
    }
}

/// Saturating sum.
pub fn fix_add(a: u64, b: u64) -> (r: u64)
    ensures
        r == fix_add_spec(a, b),
{
    if a > u64::MAX - b {
        u64::MAX
    } else {
        a + b
    }
}

/// Guarded fixed-point quotient.
pub fn fix_div(a: u64, b: u64) -> (r: u64)
    ensures
        r == fix_div_spec(a, b),
{
    if b == 0 {
        0
    } else {
        proof {
            lemma_u64_mul_fits_u128(a, FIX_ONE);
        }
        let wide = (a as u128) * (FIX_ONE as u128) / (b as u128);
        if wide > u64::MAX as u128 {
            u64::MAX
        } else {
            wide as u64
        }
    }
}

/// A product of two `u64` values always fits in `u128`.
proof fn lemma_u64_mul_fits_u128(a: u64, b: u64)
    by (nonlinear_arith)
    ensures
        a * b <= u128::MAX,
{
}

/// The integer square root: the largest `r` with `r * r <= n`.
pub open spec fn isqrt_spec(n: int) -> int
    decreases n,
{
    if n <= 0 {
        0
    } else {
        let p = isqrt_spec(n - 1);
        if (p + 1) * (p + 1) <= n {
            p + 1
        } else {
            p
        }
    }
}

/// The recursive definition above really is the floor of the square root.
pub proof fn lemma_isqrt_spec_bounds(n: int)
    requires
        n >= 0,
    ensures
        isqrt_spec(n) >= 0,
        isqrt_spec(n) * isqrt_spec(n) <= n,
        (isqrt_spec(n) + 1) * (isqrt_spec(n) + 1) > n,
    decreases n,
{
    if n > 0 {
        lemma_isqrt_spec_bounds(n - 1);
        let p = isqrt_spec(n - 1);
        if (p + 1) * (p + 1) <= n {
            assert(isqrt_spec(n) == p + 1);
            assert((p + 2) * (p + 2) > n) by (nonlinear_arith)
                requires
                    (p + 1) * (p + 1) > n - 1,
                    p >= 0,
            ;
        } else {
            assert(isqrt_spec(n) == p);
        }
    }
}

/// Any value within the two square bounds is the floor square root.
proof fn lemma_isqrt_unique(n: int, r: int)
    by (nonlinear_arith)
    requires
        n >= 0,
        r >= 0,
        r * r <= n,
        (r + 1) * (r + 1) > n,
        isqrt_spec(n) >= 0,
        isqrt_spec(n) * isqrt_spec(n) <= n,
        (isqrt_spec(n) + 1) * (isqrt_spec(n) + 1) > n,
    ensures
        r == isqrt_spec(n),
{
}

/// The integer square root, by bisection.
pub fn isqrt(n: u64) -> (r: u64)
    ensures
        r == isqrt_spec(n as int),
        r * r <= n,
{
    let mut lo: u64 = 0;
    let mut hi: u64 = 0x1_0000_0000;
    // Invariant: lo * lo <= n < hi * hi.
    proof {
        assert((0x1_0000_0000u64 as int) * (0x1_0000_0000u64 as int) > n as int) by (nonlinear_arith);
    }
    while lo + 1 < hi
        invariant
            lo < hi <= 0x1_0000_0000,
            (lo as int) * (lo as int) <= n as int,
            (hi as int) * (hi as int) > n as int,
        decreases hi - lo,
    {
        let mid = lo + (hi - lo) / 2;
        proof {
            assert((mid as int) * (mid as int) <= (0x1_0000_0000u64 as int) * (
            0x1_0000_0000u64 as int)) by (nonlinear_arith)
                requires
                    0 <= mid <= 0x1_0000_0000u64,
            ;
        }
        if (mid as u128) * (mid as u128) <= n as u128 {
            lo = mid;
        } else {
            hi = mid;
        }
    }
    proof {
        lemma_isqrt_spec_bounds(n as int);
        lemma_isqrt_unique(n as int, lo as int);
    }
    lo
}

/// Channelwise saturating sum, at the spec level.
pub open spec fn color_add_spec(a: Color, b: Color) -> Color {
    Color { r: fix_add_spec(a.r, b.r), g: fix_add_spec(a.g, b.g), b: fix_add_spec(a.b, b.b) }
}

/// Channelwise fixed-point product, at the spec level.
pub open spec fn color_mul_spec(a: Color, b: Color) -> Color {
    Color { r: fix_mul_spec(a.r, b.r), g: fix_mul_spec(a.g, b.g), b: fix_mul_spec(a.b, b.b) }
}

/// Every channel scaled by a fixed-point factor, at the spec level.
pub open spec fn color_scale_spec(c: Color, f: u64) -> Color {
    Color { r: fix_mul_spec(c.r, f), g: fix_mul_spec(c.g, f), b: fix_mul_spec(c.b, f) }
}

/// Every channel divided by a fixed-point factor (guarded), at the spec
/// level.
pub open spec fn color_div_spec(c: Color, f: u64) -> Color {
    Color { r: fix_div_spec(c.r, f), g: fix_div_spec(c.g, f), b: fix_div_spec(c.b, f) }
}

/// Every channel divided by a sample count, at the spec level.
pub open spec fn color_avg_spec(c: Color, n: u64) -> Color {
    Color {
        r: (c.r as int / n as int) as u64,
        g: (c.g as int / n as int) as u64,
        b: (c.b as int / n as int) as u64,
    }
}

/// A color: three linear-light fixed-point channels.
#[derive(Debug, Clone, Copy, PartialEq, Eq, Structural)]
pub struct Color {
    pub r: u64,
    pub g: u64,
    pub b: u64,
}

impl Color {
    /// A color from three fixed-point channels.
    pub fn new(r: u64, g: u64, b: u64) -> (c: Color)
        ensures
            c == (Color { r, g, b }),
    {
        Color { r, g, b }
    }

    /// Black.
    pub fn black() -> (c: Color)
        ensures
            c == (Color { r: 0, g: 0, b: 0 }),
    {
        Color { r: 0, g: 0, b: 0 }
    }

    /// Channelwise saturating sum.
    pub fn add(&self, other: &Color) -> (c: Color)
        ensures
            c == color_add_spec(*self, *other),
            c.r == fix_add_spec(self.r, other.r),
            c.g == fix_add_spec(self.g, other.g),
            c.b == fix_add_spec(self.b, other.b),
    {
        Color {
            r: fix_add(self.r, other.r),
            g: fix_add(self.g, other.g),
            b: fix_add(self.b, other.b),
        }
    }

    /// Channelwise fixed-point product (filtering one color by another).
    pub fn mul(&self, other: &Color) -> (c: Color)
        ensures
            c == color_mul_spec(*self, *other),
            c.r == fix_mul_spec(self.r, other.r),
            c.g == fix_mul_spec(self.g, other.g),
            c.b == fix_mul_spec(self.b, other.b),
    {
        Color {
            r: fix_mul(self.r, other.r),
            g: fix_mul(self.g, other.g),
            b: fix_mul(self.b, other.b),
        }
    }

    /// Every channel scaled by a fixed-point factor.
    pub fn scaled(&self, f: u64) -> (c: Color)
        ensures
            c == color_scale_spec(*self, f),
            c.r == fix_mul_spec(self.r, f),
            c.g == fix_mul_spec(self.g, f),
            c.b == fix_mul_spec(self.b, f),
    {
        Color { r: fix_mul(self.r, f), g: fix_mul(self.g, f), b: fix_mul(self.b, f) }
    }

    /// Every channel divided by a fixed-point factor (guarded).
    pub fn divided(&self, f: u64) -> (c: Color)
        ensures
            c == color_div_spec(*self, f),
            c.r == fix_div_spec(self.r, f),
            c.g == fix_div_spec(self.g, f),
            c.b == fix_div_spec(self.b, f),
    {
        Color { r: fix_div(self.r, f), g: fix_div(self.g, f), b: fix_div(self.b, f) }
    }

    /// Every channel divided by a sample count (averaging accumulated
    /// radiance; exact on exact multiples).
    pub fn averaged(&self, n: u64) -> (c: Color)
        requires
            n >= 1,
        ensures
            c == color_avg_spec(*self, n),
            c.r == self.r / n,
            c.g == self.g / n,
            c.b == self.b / n,
    {
        Color { r: self.r / n, g: self.g / n, b: self.b / n }
    }

    /// The largest channel (the survival weight of stochastic termination).
    pub fn max_component(&self) -> (m: u64)
        ensures
            m == if self.r >= self.g && self.r >= self.b {
                self.r
            } else if self.g >= self.b {
                self.g
            } else {
                self.b
            },
    {
        if self.r >= self.g && self.r >= self.b {
            self.r
        } else if self.g >= self.b {
            self.g
        } else {
            self.b
        }
    }
}

/// Gamma encoding of one linear channel: the square root of the linear
/// value, in fixed point.
pub open spec fn linear_to_gamma_spec(c: u64) -> int {
    isqrt_spec(c * (FIX_ONE as int))
}

/// Gamma-encode one channel.
pub fn double_linear_to_gamma(c: u64) -> (g: u64)
    requires
        c <= 0xFFFF_FFFF_FFFF,
    ensures
        g == linear_to_gamma_spec(c),
{
    isqrt(c * FIX_ONE)
}

/// The byte a gamma-encoded channel maps to: scaled by 256 and clamped to
/// 255.
pub open spec fn gamma_byte_spec(c: u64) -> u8 {
    let g = linear_to_gamma_spec(c);
    if g / 256 > 255 {
        255u8
    } else {
        (g / 256) as u8
    }
}

/// The three output bytes of a pixel: each channel gamma-encoded (square
/// root of the linear value), scaled to the byte range and clamped.
pub fn write_color(pixel: &Color) -> (bytes: (u8, u8, u8))
    requires
        pixel.r <= 0xFFFF_FFFF_FFFF,
        pixel.g <= 0xFFFF_FFFF_FFFF,
        pixel.b <= 0xFFFF_FFFF_FFFF,
    ensures
        bytes.0 == gamma_byte_spec(pixel.r),
        bytes.1 == gamma_byte_spec(pixel.g),
        bytes.2 == gamma_byte_spec(pixel.b),
{
    let gr = double_linear_to_gamma(pixel.r) / 256;
    let gg = double_linear_to_gamma(pixel.g) / 256;
    let gb = double_linear_to_gamma(pixel.b) / 256;
    (
        if gr > 255 {
            255
        } else {
            gr as u8
        },
        if gg > 255 {
            255
        } else {
            gg as u8
        },
        if gb > 255 {
            255
        } else {
            gb as u8
        },
    )
}

} // verus!
