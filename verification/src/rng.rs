//! A deterministic pseudo-random stream, threaded explicitly through every
//! sampling decision.
//!
//! The renderer never draws from shared or ambient randomness: each consumer
//! owns an `RngState` (derived per pixel from a seed), so a render is a pure
//! function of scene and seed, and concurrency can only reschedule work, not
//! change results. The generator is a 64-bit xorshift, whose step is a spec
//! function, so every draw is pinned by contracts.

use vstd::prelude::*;

verus! {

/// The state of one pseudo-random stream.
#[derive(Debug, Clone, Copy, PartialEq, Eq, Structural)]
pub struct RngState {
    pub s: u64,
}

/// One xorshift step of the stream state (a zero state is replaced by a
/// fixed odd constant first, since xorshift fixes zero).
pub open spec fn rng_step(s: u64) -> u64 {
    let s0 = if s == 0 {
        0x9E3779B97F4A7C15u64
    } else {
        s
    };
    let a = (s0 ^ (s0 << 13)) as u64;
    let b = (a ^ (a >> 7)) as u64;
    (b ^ (b << 17)) as u64
}

impl RngState {
    /// A stream from a seed.
    pub fn new(seed: u64) -> (r: RngState)
        ensures
            r.s == seed,
    {
        RngState { s: seed }
    }

    /// A stream for one pixel: the seed mixed with the pixel coordinates, so
    /// distinct pixels get independent streams whatever order they are
    /// rendered in.
    pub fn for_pixel(seed: u64, x: u64, y: u64) -> (r: RngState)
        ensures
            r.s == rng_step((seed ^ (x ^ (y << 32)) as u64) as u64),
    {
        RngState { s: next_of((seed ^ (x ^ (y << 32)) as u64) as u64) }
    }

    /// Draw the next 64-bit value and advance the stream.
    pub fn next_u64(&mut self) -> (r: u64)
        ensures
            r == rng_step(old(self).s),
            final(self).s == rng_step(old(self).s),
    {
        let r = next_of(self.s);
        self.s = r;
        r
    }

    /// Draw a value in `[0, 65536)`: a fixed-point sample of the unit
    /// interval, the analogue of a uniform draw in `[0, 1)`.
    pub fn next_unit(&mut self) -> (r: u64)
        ensures
            r == rng_step(old(self).s) % 65536,
            final(self).s == rng_step(old(self).s),
            r < 65536,
    {
        let v = self.next_u64();
        v % 65536
    }

    /// Draw an unbiased coin.
    pub fn next_bool(&mut self) -> (r: bool)
        ensures
            r == (rng_step(old(self).s) % 2 == 0),
            final(self).s == rng_step(old(self).s),
    {
        let v = self.next_u64();
        v % 2 == 0
    }
}

/// One xorshift step, executably.
fn next_of(s: u64) -> (r: u64)
    ensures
        r == rng_step(s),
{
    let s0 = if s == 0 {
        0x9E3779B97F4A7C15
    } else {
        s
    };
    let a = s0 ^ (s0 << 13);
    let b = a ^ (a >> 7);
    b ^ (b << 17)
}

/// A uniform-ish integer in the inclusive range `[min, max]`, drawn from the
/// stream by reduction modulo the range width.
pub fn random_int(rng: &mut RngState, min: usize, max: usize) -> (r: usize)
    requires
        min <= max,
        max - min < 0xFFFF_FFFF_FFFF_FFFF,
    ensures
        min <= r <= max,
        final(rng).s == rng_step(old(rng).s),
        r == min + (rng_step(old(rng).s) % ((max - min + 1) as u64)) as usize,
{
    let width = (max - min) as u64 + 1;
    let v = rng.next_u64();
    min + (v % width) as usize
}

} // verus!
