//! The tile scheduler: a fixed grid of tiles partitioning the image, the
//! shared framebuffer tiles are spliced into, and the counting admission
//! gate that bounds how many tiles are in flight.
//!
//! The image is cut into a constant number of tiles per axis, so tile extent
//! scales with resolution. Every pixel belongs to exactly one tile, which is
//! what makes splicing commutative: finished tiles may land in the
//! framebuffer in any order — the order workers complete in — without
//! changing a single pixel. That is the scheduler's correctness argument,
//! proved here twice over: adjacent splices of disjoint tiles commute
//! (`lemma_tile_writes_commute`), and any two complete splice schedules end
//! in the same image (`lemma_schedules_agree`), so a worker limit of one and
//! a worker limit of many can only differ in timing. The admission gate is
//! the decision core of the classic mutex-and-condvar counting semaphore;
//! the waiting itself is the caller's business.

use vstd::prelude::*;
use vstd::arithmetic::div_mod::lemma_fundamental_div_mod_converse;

use crate::color::Color;

verus! {

/// Number of tile columns.
pub const WIDTH_PARTITION: usize = 32;

/// Number of tile rows.
pub const HEIGHT_PARTITION: usize = 32;

/// Default bound on concurrently running tiles.
pub const THREAD_LIMIT: usize = 24;

/// Largest image extent the scheduler's index arithmetic is sized for.
pub const IMAGE_LIMIT: usize = 30000;

/// A rectangular, independently schedulable sub-region of the image:
/// the pixels with `x_min <= x < x_max` and `y_min <= y < y_max`.
#[derive(Debug, Clone, Copy, PartialEq, Eq, Structural)]
pub struct Tile {
    pub x_min: usize,
    pub x_max: usize,
    pub y_min: usize,
    pub y_max: usize,
}

/// Validity of a tile against the image extent.
pub open spec fn tile_wf(t: Tile, w: int, h: int) -> bool {
    t.x_min <= t.x_max <= w && t.y_min <= t.y_max <= h
}

/// The number of pixels a tile owns.
pub open spec fn tile_area(t: Tile) -> int {
    (t.x_max - t.x_min) * (t.y_max - t.y_min)
}

/// Whether the row-major pixel index `idx` belongs to the tile.
pub open spec fn idx_in_tile(t: Tile, w: int, idx: int) -> bool {
    t.x_min <= idx % w < t.x_max && t.y_min <= idx / w < t.y_max
}

/// The position of pixel `idx` within the tile's private row-major buffer.
pub open spec fn tile_buf_idx(t: Tile, w: int, idx: int) -> int {
    (idx / w - t.y_min) * (t.x_max - t.x_min) + (idx % w - t.x_min)
}

/// What splicing one tile into a framebuffer does: pixels of the tile take
/// the tile's buffer, every other pixel is untouched.
pub open spec fn tile_write_rel(
    pre: Seq<Color>,
    post: Seq<Color>,
    w: int,
    t: Tile,
    buf: Seq<Color>,
) -> bool {
    &&& post.len() == pre.len()
    &&& forall|idx: int|
        0 <= idx < pre.len() ==> #[trigger] post[idx] == (if idx_in_tile(t, w, idx) {
            buf[tile_buf_idx(t, w, idx)]
        } else {
            pre[idx]
        })
}

/// Tiles that share no pixel.
pub open spec fn tiles_disjoint(t1: Tile, t2: Tile) -> bool {
    ||| t1.x_max <= t2.x_min
    ||| t2.x_max <= t1.x_min
    ||| t1.y_max <= t2.y_min
    ||| t2.y_max <= t1.y_min
}

/// Splices of disjoint tiles commute: whichever of two workers finishes
/// first, the framebuffer ends up identical. Concurrency affects scheduling
/// only, never the image.
pub proof fn lemma_tile_writes_commute(
    pre: Seq<Color>,
    w: int,
    t1: Tile,
    b1: Seq<Color>,
    t2: Tile,
    b2: Seq<Color>,
    m1: Seq<Color>,
    ab: Seq<Color>,
    m2: Seq<Color>,
    ba: Seq<Color>,
)
    requires
        tiles_disjoint(t1, t2),
        tile_write_rel(pre, m1, w, t1, b1),
        tile_write_rel(m1, ab, w, t2, b2),
        tile_write_rel(pre, m2, w, t2, b2),
        tile_write_rel(m2, ba, w, t1, b1),
    ensures
        ab == ba,
{
    assert forall|idx: int| 0 <= idx < pre.len() implies ab[idx] == ba[idx] by {
        assert(!(idx_in_tile(t1, w, idx) && idx_in_tile(t2, w, idx)));
    }
    assert(ab =~= ba);
}

/// The identity on grid-tile indices (a handle for quantifier triggers).
pub open spec fn seq_id(t: int) -> int {
    t
}

/// One step of a splice schedule: the framebuffer before and after splicing
/// grid tile `order[k]` with its private buffer.
pub open spec fn schedule_step(
    states: Seq<Seq<Color>>,
    order: Seq<int>,
    bufs: Seq<Seq<Color>>,
    w: int,
    h: int,
    k: int,
) -> bool {
    tile_write_rel(states[k], states[k + 1], w, planned_tile(order[k], w, h), bufs[order[k]])
}

/// A complete splice schedule: every grid tile spliced exactly once, in the
/// order the workers happened to finish in.
pub open spec fn is_schedule(
    states: Seq<Seq<Color>>,
    order: Seq<int>,
    bufs: Seq<Seq<Color>>,
    w: int,
    h: int,
) -> bool {
    &&& order.len() == WIDTH_PARTITION * HEIGHT_PARTITION
    &&& bufs.len() == WIDTH_PARTITION * HEIGHT_PARTITION
    &&& states.len() == order.len() + 1
    &&& states[0].len() == w * h
    &&& forall|k: int| 0 <= k < order.len() ==> 0 <= #[trigger] order[k] < order.len()
    &&& forall|k1: int, k2: int|
        0 <= k1 < k2 < order.len() ==> #[trigger] order[k1] != #[trigger] order[k2]
    &&& forall|t: int|
        0 <= t < order.len() ==> (exists|k: int|
            0 <= k < order.len() && #[trigger] order[k] == #[trigger] seq_id(t))
    &&& forall|k: int| 0 <= k < order.len() ==> #[trigger] schedule_step(states, order, bufs, w, h, k)
}

/// A pixel owned by none of the tiles spliced over a span of the schedule
/// keeps its value across that span.
proof fn lemma_untouched_span(
    states: Seq<Seq<Color>>,
    order: Seq<int>,
    bufs: Seq<Seq<Color>>,
    w: int,
    h: int,
    idx: int,
    own: int,
    from: int,
    to: int,
)
    requires
        is_schedule(states, order, bufs, w, h),
        1 <= w <= IMAGE_LIMIT,
        1 <= h <= IMAGE_LIMIT,
        0 <= idx < w * h,
        own == owner_tile(idx % w, idx / w, w, h),
        0 <= from <= to <= order.len(),
        forall|k: int| from <= k < to ==> #[trigger] order[k] != own,
        forall|k: int| 0 <= k < states.len() ==> #[trigger] states[k].len() == w * h,
    ensures
        states[to][idx] == states[from][idx],
    decreases to - from,
{
    if from < to {
        lemma_untouched_span(states, order, bufs, w, h, idx, own, from, to - 1);
        let x = idx % w;
        let y = idx / w;
        vstd::arithmetic::div_mod::lemma_fundamental_div_mod(idx, w);
        assert(w * y == y * w) by (nonlinear_arith);
        assert(0 <= x < w && 0 <= y < h) by (nonlinear_arith)
            requires
                0 <= idx < w * h,
                idx == y * w + x,
                0 <= x < w,
                1 <= w,
        ;
        lemma_tile_cover_unique(x, y, w, h, order[to - 1]);
        assert(!idx_in_tile(planned_tile(order[to - 1], w, h), w, idx));
        assert(schedule_step(states, order, bufs, w, h, to - 1));
    }
}

/// A complete schedule's outcome is pointwise the owner tile's buffer value,
/// whatever order the tiles were spliced in.
pub proof fn lemma_schedule_outcome(
    states: Seq<Seq<Color>>,
    order: Seq<int>,
    bufs: Seq<Seq<Color>>,
    w: int,
    h: int,
    idx: int,
)
    requires
        is_schedule(states, order, bufs, w, h),
        1 <= w <= IMAGE_LIMIT,
        1 <= h <= IMAGE_LIMIT,
        0 <= idx < w * h,
    ensures
        ({
            let own = owner_tile(idx % w, idx / w, w, h);
            states[order.len() as int][idx] == bufs[own][tile_buf_idx(
                planned_tile(own, w, h),
                w,
                idx,
            )]
        }),
{
    let n = order.len() as int;
    // Every state of the schedule keeps the framebuffer's size.
    assert forall|k: int| 0 <= k < states.len() implies #[trigger] states[k].len() == w * h by {
        lemma_states_sized(states, order, bufs, w, h, k);
    }
    let x = idx % w;
    let y = idx / w;
    vstd::arithmetic::div_mod::lemma_fundamental_div_mod(idx, w);
    assert(w * y == y * w) by (nonlinear_arith);
    assert(0 <= x < w && 0 <= y < h) by (nonlinear_arith)
        requires
            0 <= idx < w * h,
            idx == y * w + x,
            0 <= x < w,
            1 <= w,
    ;
    lemma_tile_cover_unique(x, y, w, h, 0);
    let own = owner_tile(x, y, w, h);
    // The owner is spliced exactly once, at position k0.
    assert(0 <= own < n);
    assert(exists|k: int| 0 <= k < order.len() && #[trigger] order[k] == seq_id(own)) by {
        assert(seq_id(own) == own);
    }
    let k0 = choose|k: int| 0 <= k < order.len() && #[trigger] order[k] == seq_id(own);
    assert(0 <= k0 < n && order[k0] == own);
    lemma_tile_cover_unique(x, y, w, h, own);
    assert(idx_in_tile(planned_tile(own, w, h), w, idx));
    // The splice at k0 writes the owner's buffer value; the spans before and
    // after leave the pixel alone.
    assert(schedule_step(states, order, bufs, w, h, k0));
    assert(states[k0 + 1][idx] == bufs[own][tile_buf_idx(planned_tile(own, w, h), w, idx)]);
    assert forall|k: int| k0 + 1 <= k < n implies #[trigger] order[k] != own by {
        if order[k] == own {
            assert(order[k0] != order[k]);
        }
    }
    lemma_untouched_span(states, order, bufs, w, h, idx, own, k0 + 1, n);
}

/// Every state of a schedule has the framebuffer's size.
proof fn lemma_states_sized(
    states: Seq<Seq<Color>>,
    order: Seq<int>,
    bufs: Seq<Seq<Color>>,
    w: int,
    h: int,
    k: int,
)
    requires
        is_schedule(states, order, bufs, w, h),
        0 <= k < states.len(),
    ensures
        states[k].len() == w * h,
    decreases k,
{
    if k > 0 {
        lemma_states_sized(states, order, bufs, w, h, k - 1);
        assert(schedule_step(states, order, bufs, w, h, k - 1));
    }
}

/// Rendering under a worker limit of one and under any larger limit fills
/// the framebuffer identically: two complete schedules over the same tile
/// buffers end in the same image, whatever orders their workers finished in.
pub proof fn lemma_schedules_agree(
    states1: Seq<Seq<Color>>,
    order1: Seq<int>,
    states2: Seq<Seq<Color>>,
    order2: Seq<int>,
    bufs: Seq<Seq<Color>>,
    w: int,
    h: int,
)
    requires
        is_schedule(states1, order1, bufs, w, h),
        is_schedule(states2, order2, bufs, w, h),
        1 <= w <= IMAGE_LIMIT,
        1 <= h <= IMAGE_LIMIT,
    ensures
        states1[order1.len() as int] == states2[order2.len() as int],
{
    let f1 = states1[order1.len() as int];
    let f2 = states2[order2.len() as int];
    assert(f1.len() == w * h) by {
        lemma_states_sized(states1, order1, bufs, w, h, states1.len() - 1);
    }
    assert(f2.len() == w * h) by {
        lemma_states_sized(states2, order2, bufs, w, h, states2.len() - 1);
    }
    assert forall|idx: int| 0 <= idx < w * h implies f1[idx] == f2[idx] by {
        lemma_schedule_outcome(states1, order1, bufs, w, h, idx);
        lemma_schedule_outcome(states2, order2, bufs, w, h, idx);
    }
    assert(f1 =~= f2);
}

/// The column width of the fixed tile grid (the image width divided into
/// `WIDTH_PARTITION` columns, rounded up).
pub open spec fn chunk_w_spec(w: int) -> int {
    (w + WIDTH_PARTITION - 1) / (WIDTH_PARTITION as int)
}

/// The row height of the fixed tile grid.
pub open spec fn chunk_h_spec(h: int) -> int {
    (h + HEIGHT_PARTITION - 1) / (HEIGHT_PARTITION as int)
}

/// The tile at grid position `ti` (row-major over the grid): its pixel
/// ranges, clamped to the image.
pub open spec fn planned_tile(ti: int, w: int, h: int) -> Tile {
    let bx = ti % (WIDTH_PARTITION as int);
    let by = ti / (WIDTH_PARTITION as int);
    let cw = chunk_w_spec(w);
    let ch = chunk_h_spec(h);
    Tile {
        x_min: clamp_to(bx * cw, w) as usize,
        x_max: clamp_to((bx + 1) * cw, w) as usize,
        y_min: clamp_to(by * ch, h) as usize,
        y_max: clamp_to((by + 1) * ch, h) as usize,
    }
}

/// The smaller of a computed coordinate and the image extent.
pub open spec fn clamp_to(v: int, limit: int) -> int {
    if v <= limit {
        v
    } else {
        limit
    }
}

/// The grid index of the tile that owns pixel `(x, y)`.
pub open spec fn owner_tile(x: int, y: int, w: int, h: int) -> int {
    (y / chunk_h_spec(h)) * (WIDTH_PARTITION as int) + x / chunk_w_spec(w)
}

/// Rounding the chunk size up makes the grid cover the whole extent.
proof fn lemma_chunk_covers(e: int, parts: int) -> (c: int)
    requires
        1 <= e,
        1 <= parts,
    ensures
        c == (e + parts - 1) / parts,
        c >= 1,
        parts * c >= e,
        (e - 1) / c < parts,
{
    let c = (e + parts - 1) / parts;
    assert(c >= 1 && parts * c >= e) by (nonlinear_arith)
        requires
            1 <= e,
            1 <= parts,
            c == (e + parts - 1) / parts,
    ;
    assert((e - 1) / c < parts) by (nonlinear_arith)
        requires
            1 <= e,
            1 <= parts,
            1 <= c,
            parts * c >= e,
    ;
    c
}

/// A coordinate within the image falls in the grid slot its division picks,
/// and in no other.
proof fn lemma_slot_of(v: int, e: int, c: int, b: int)
    requires
        0 <= v < e,
        1 <= c,
    ensures
        (b == v / c) <==> (clamp_to(b * c, e) <= v < clamp_to((b + 1) * c, e)),
{
    if b == v / c {
        assert(b * c <= v < (b + 1) * c) by (nonlinear_arith)
            requires
                0 <= v,
                1 <= c,
                b == v / c,
        ;
    }
    if clamp_to(b * c, e) <= v < clamp_to((b + 1) * c, e) {
        assert(b * c <= v < (b + 1) * c);
        assert(0 <= v - b * c < c) by (nonlinear_arith)
            requires
                b * c <= v < (b + 1) * c,
        ;
        lemma_fundamental_div_mod_converse(v, c, b, v - b * c);
    }
}

/// Every pixel of the image lies in the tile `owner_tile` names, and in no
/// other tile of the grid.
pub proof fn lemma_tile_cover_unique(x: int, y: int, w: int, h: int, ti: int)
    requires
        0 <= x < w <= IMAGE_LIMIT,
        0 <= y < h <= IMAGE_LIMIT,
        0 <= ti < WIDTH_PARTITION * HEIGHT_PARTITION,
    ensures
        0 <= owner_tile(x, y, w, h) < WIDTH_PARTITION * HEIGHT_PARTITION,
        idx_in_tile(planned_tile(ti, w, h), w, y * w + x) <==> ti == owner_tile(x, y, w, h),
    decreases 0int,
{
    let cw = lemma_chunk_covers(w, WIDTH_PARTITION as int);
    let ch = lemma_chunk_covers(h, HEIGHT_PARTITION as int);
    let bx = ti % (WIDTH_PARTITION as int);
    let by = ti / (WIDTH_PARTITION as int);
    assert(0 <= bx < WIDTH_PARTITION && 0 <= by < HEIGHT_PARTITION) by (nonlinear_arith)
        requires
            0 <= ti < WIDTH_PARTITION * HEIGHT_PARTITION,
            bx == ti % (WIDTH_PARTITION as int),
            by == ti / (WIDTH_PARTITION as int),
    ;
    let idx = y * w + x;
    assert(idx % w == x && idx / w == y) by {
        lemma_fundamental_div_mod_converse(idx, w, y, x);
    }
    lemma_slot_of(x, w, cw, bx);
    lemma_slot_of(y, h, ch, by);
    // The owner's grid coordinates.
    assert(x / cw < WIDTH_PARTITION) by {
        assert(x / cw <= (w - 1) / cw) by (nonlinear_arith)
            requires
                0 <= x <= w - 1,
                1 <= cw,
        ;
    }
    assert(y / ch < HEIGHT_PARTITION) by {
        assert(y / ch <= (h - 1) / ch) by (nonlinear_arith)
            requires
                0 <= y <= h - 1,
                1 <= ch,
        ;
    }
    assert(0 <= y / ch && 0 <= x / cw);
    assert(owner_tile(x, y, w, h) == (y / ch) * (WIDTH_PARTITION as int) + x / cw);
    assert(0 <= owner_tile(x, y, w, h) < WIDTH_PARTITION * HEIGHT_PARTITION) by (nonlinear_arith)
        requires
            owner_tile(x, y, w, h) == (y / ch) * (WIDTH_PARTITION as int) + x / cw,
            0 <= x / cw < WIDTH_PARTITION,
            0 <= y / ch < HEIGHT_PARTITION,
    ;
    if ti == owner_tile(x, y, w, h) {
        assert(bx == x / cw && by == y / ch) by (nonlinear_arith)
            requires
                ti == (y / ch) * (WIDTH_PARTITION as int) + x / cw,
                bx == ti % (WIDTH_PARTITION as int),
                by == ti / (WIDTH_PARTITION as int),
                0 <= x / cw < WIDTH_PARTITION,
                0 <= y / ch < HEIGHT_PARTITION,
        ;
    }
    if idx_in_tile(planned_tile(ti, w, h), w, idx) {
        assert(bx == x / cw && by == y / ch);
        assert(ti == by * (WIDTH_PARTITION as int) + bx) by (nonlinear_arith)
            requires
                bx == ti % (WIDTH_PARTITION as int),
                by == ti / (WIDTH_PARTITION as int),
        ;
    }
}

/// Every tile of the grid is a valid sub-rectangle of the image.
pub proof fn lemma_planned_tile_wf(ti: int, w: int, h: int)
    requires
        1 <= w <= IMAGE_LIMIT,
        1 <= h <= IMAGE_LIMIT,
        0 <= ti,
    ensures
        tile_wf(planned_tile(ti, w, h), w, h),
{
    let bx = ti % (WIDTH_PARTITION as int);
    let by = ti / (WIDTH_PARTITION as int);
    let cw = chunk_w_spec(w);
    let ch = chunk_h_spec(h);
    assert(cw >= 0 && ch >= 0);
    assert(bx >= 0 && by >= 0);
    assert(0 <= bx * cw <= (bx + 1) * cw && 0 <= by * ch <= (by + 1) * ch) by (nonlinear_arith)
        requires
            bx >= 0,
            by >= 0,
            cw >= 0,
            ch >= 0,
    ;
}

/// Distinct tiles of the grid own no pixel in common.
pub proof fn lemma_planned_tiles_disjoint(w: int, h: int, t1: int, t2: int, idx: int)
    requires
        1 <= w <= IMAGE_LIMIT,
        1 <= h <= IMAGE_LIMIT,
        0 <= t1 < WIDTH_PARTITION * HEIGHT_PARTITION,
        0 <= t2 < WIDTH_PARTITION * HEIGHT_PARTITION,
        t1 != t2,
        0 <= idx < w * h,
    ensures
        !(idx_in_tile(planned_tile(t1, w, h), w, idx) && idx_in_tile(planned_tile(t2, w, h), w, idx)),
{
    let x = idx % w;
    let y = idx / w;
    assert(0 <= x < w && 0 <= y < h) by (nonlinear_arith)
        requires
            0 <= idx < w * h,
            1 <= w,
            x == idx % w,
            y == idx / w,
    ;
    assert(y * w + x == idx) by {
        vstd::arithmetic::div_mod::lemma_fundamental_div_mod(idx, w);
    }
    lemma_tile_cover_unique(x, y, w, h, t1);
    lemma_tile_cover_unique(x, y, w, h, t2);
}

/// The fixed grid of tiles for an image: a constant number per axis, each
/// pixel in exactly one tile (`lemma_tile_cover_unique`).
pub fn plan_tiles(width: usize, height: usize) -> (tiles: Vec<Tile>)
    requires
        1 <= width <= IMAGE_LIMIT,
        1 <= height <= IMAGE_LIMIT,
    ensures
        tiles@.len() == WIDTH_PARTITION * HEIGHT_PARTITION,
        forall|ti: int|
            0 <= ti < tiles@.len() ==> #[trigger] tiles@[ti] == planned_tile(
                ti,
                width as int,
                height as int,
            ),
{
    let cw = (width + WIDTH_PARTITION - 1) / WIDTH_PARTITION;
    let ch = (height + HEIGHT_PARTITION - 1) / HEIGHT_PARTITION;
    proof {
        assert(cw <= 30000 && ch <= 30000) by (nonlinear_arith)
            requires
                1 <= width <= 30000,
                1 <= height <= 30000,
                cw == (width + WIDTH_PARTITION - 1) / (WIDTH_PARTITION as int),
                ch == (height + HEIGHT_PARTITION - 1) / (HEIGHT_PARTITION as int),
        ;
    }
    let mut tiles: Vec<Tile> = Vec::new();
    let mut by: usize = 0;
    while by < HEIGHT_PARTITION
        invariant
            by <= HEIGHT_PARTITION,
            1 <= width <= IMAGE_LIMIT,
            1 <= height <= IMAGE_LIMIT,
            cw == chunk_w_spec(width as int),
            ch == chunk_h_spec(height as int),
            cw <= IMAGE_LIMIT && ch <= IMAGE_LIMIT,
            tiles@.len() == by * WIDTH_PARTITION,
            forall|ti: int|
                0 <= ti < tiles@.len() ==> #[trigger] tiles@[ti] == planned_tile(
                    ti,
                    width as int,
                    height as int,
                ),
        decreases HEIGHT_PARTITION - by,
    {
        let mut bx: usize = 0;
        while bx < WIDTH_PARTITION
            invariant
                bx <= WIDTH_PARTITION,
                by < HEIGHT_PARTITION,
                1 <= width <= IMAGE_LIMIT,
                1 <= height <= IMAGE_LIMIT,
                cw == chunk_w_spec(width as int),
                ch == chunk_h_spec(height as int),
                cw <= IMAGE_LIMIT && ch <= IMAGE_LIMIT,
                tiles@.len() == by * WIDTH_PARTITION + bx,
                forall|ti: int|
                    0 <= ti < tiles@.len() ==> #[trigger] tiles@[ti] == planned_tile(
                        ti,
                        width as int,
                        height as int,
                    ),
            decreases WIDTH_PARTITION - bx,
        {
            proof {
                assert((bx + 1) * cw <= 960000 && (by + 1) * ch <= 960000 && bx * cw <= 960000
                    && by * ch <= 960000) by (nonlinear_arith)
                    requires
                        bx < 32,
                        by < 32,
                        0 <= cw <= 30000,
                        0 <= ch <= 30000,
                ;
            }
            let x_min_raw = bx * cw;
            let x_max_raw = (bx + 1) * cw;
            let y_min_raw = by * ch;
            let y_max_raw = (by + 1) * ch;
            let t = Tile {
                x_min: if x_min_raw <= width {
                    x_min_raw
                } else {
                    width
                },
                x_max: if x_max_raw <= width {
                    x_max_raw
                } else {
                    width
                },
                y_min: if y_min_raw <= height {
                    y_min_raw
                } else {
                    height
                },
                y_max: if y_max_raw <= height {
                    y_max_raw
                } else {
                    height
                },
            };
            proof {
                let ti = tiles@.len() as int;
                assert(ti % (WIDTH_PARTITION as int) == bx && ti / (WIDTH_PARTITION as int)
                    == by) by {
                    lemma_fundamental_div_mod_converse(
                        ti,
                        WIDTH_PARTITION as int,
                        by as int,
                        bx as int,
                    );
                }
                assert(t == planned_tile(ti, width as int, height as int));
            }
            tiles.push(t);
            bx = bx + 1;
        }
        by = by + 1;
    }
    tiles
}

/// The shared framebuffer: a row-major pixel grid, origin top-left, the one
/// piece of state all workers write. Tiles own disjoint pixel ranges, so
/// each pixel is populated exactly once per render.
pub struct Framebuffer {
    pub width: usize,
    pub height: usize,
    pub data: Vec<Color>,
}

/// Validity: the buffer holds exactly one color per pixel.
pub open spec fn fb_wf(fb: Framebuffer) -> bool {
    fb.data@.len() == fb.width * fb.height
}

impl Framebuffer {
    /// A black framebuffer of the given extent.
    pub fn new(width: usize, height: usize) -> (fb: Framebuffer)
        requires
            width <= IMAGE_LIMIT,
            height <= IMAGE_LIMIT,
        ensures
            fb_wf(fb),
            fb.width == width,
            fb.height == height,
            forall|idx: int|
                0 <= idx < fb.data@.len() ==> #[trigger] fb.data@[idx] == (Color {
                    r: 0,
                    g: 0,
                    b: 0,
                }),
    {
        proof {
            assert(width * height <= 900000000) by (nonlinear_arith)
                requires
                    width <= 30000,
                    height <= 30000,
            ;
        }
        let total = width * height;
        let mut data: Vec<Color> = Vec::new();
        let mut k: usize = 0;
        while k < total
            invariant
                k <= total,
                data@.len() == k,
                forall|idx: int|
                    0 <= idx < k ==> #[trigger] data@[idx] == (Color { r: 0, g: 0, b: 0 }),
            decreases total - k,
        {
            data.push(Color { r: 0, g: 0, b: 0 });
            k = k + 1;
        }
        Framebuffer { width, height, data }
    }

    /// Splice one finished tile's private buffer into the framebuffer: the
    /// tile's pixels take the buffer, every other pixel is untouched.
    pub fn write_tile(&mut self, tile: &Tile, buf: &Vec<Color>)
        requires
            fb_wf(*old(self)),
            old(self).width >= 1,
            old(self).width <= IMAGE_LIMIT,
            old(self).height <= IMAGE_LIMIT,
            tile_wf(*tile, old(self).width as int, old(self).height as int),
            buf@.len() == tile_area(*tile),
        ensures
            fb_wf(*final(self)),
            final(self).width == old(self).width,
            final(self).height == old(self).height,
            tile_write_rel(
                old(self).data@,
                final(self).data@,
                old(self).width as int,
                *tile,
                buf@,
            ),
    {
        let ghost pre = self.data@;
        let w = self.width;
        let tw = tile.x_max - tile.x_min;
        let mut y = tile.y_min;
        while y < tile.y_max
            invariant
                fb_wf(*self),
                self.width == old(self).width,
                self.height == old(self).height,
                1 <= w == self.width <= IMAGE_LIMIT,
                self.height <= IMAGE_LIMIT,
                tile_wf(*tile, w as int, self.height as int),
                tw == tile.x_max - tile.x_min,
                buf@.len() == tile_area(*tile),
                tile.y_min <= y <= tile.y_max,
                self.data@.len() == pre.len(),
                forall|idx: int|
                    0 <= idx < pre.len() ==> #[trigger] self.data@[idx] == (if idx_in_tile(
                        *tile,
                        w as int,
                        idx,
                    ) && idx / (w as int) < y {
                        buf@[tile_buf_idx(*tile, w as int, idx)]
                    } else {
                        pre[idx]
                    }),
            decreases tile.y_max - y,
        {
            let mut x = tile.x_min;
            while x < tile.x_max
                invariant
                    fb_wf(*self),
                    self.width == old(self).width,
                    self.height == old(self).height,
                    1 <= w == self.width <= IMAGE_LIMIT,
                    self.height <= IMAGE_LIMIT,
                    tile_wf(*tile, w as int, self.height as int),
                    tw == tile.x_max - tile.x_min,
                    buf@.len() == tile_area(*tile),
                    tile.y_min <= y < tile.y_max,
                    tile.x_min <= x <= tile.x_max,
                    self.data@.len() == pre.len(),
                    forall|idx: int|
                        0 <= idx < pre.len() ==> #[trigger] self.data@[idx] == (if idx_in_tile(
                            *tile,
                            w as int,
                            idx,
                        ) && (idx / (w as int) < y || (idx / (w as int) == y && idx % (
                        w as int) < x)) {
                            buf@[tile_buf_idx(*tile, w as int, idx)]
                        } else {
                            pre[idx]
                        }),
                decreases tile.x_max - x,
            {
                proof {
                    assert(y * w + x < self.height * w && y * w + x <= 900000000)
                        by (nonlinear_arith)
                        requires
                            0 <= y < self.height,
                            0 <= x < w,
                            self.height <= 30000,
                            w <= 30000,
                    ;
                    assert(self.height * w == self.width * self.height) by (nonlinear_arith)
                        requires
                            w == self.width,
                    ;
                }
                let idx = y * w + x;
                proof {
                    lemma_fundamental_div_mod_converse(idx as int, w as int, y as int, x as int);
                    assert(0 <= (y - tile.y_min) * (tw as int) + (x - tile.x_min) < tile_area(
                        *tile,
                    )) by (nonlinear_arith)
                        requires
                            tile.y_min <= y < tile.y_max,
                            tile.x_min <= x < tile.x_max,
                            tw == tile.x_max - tile.x_min,
                            tile_area(*tile) == (tile.x_max - tile.x_min) * (tile.y_max
                                - tile.y_min),
                    ;
                    assert((y - tile.y_min) * (tw as int) <= tile_area(*tile)) by (nonlinear_arith)
                        requires
                            tile.y_min <= y < tile.y_max,
                            0 <= tw,
                            tile_area(*tile) == (tw as int) * (tile.y_max - tile.y_min),
                    ;
                    assert((y - tile.y_min) * (tw as int) + (x - tile.x_min) <= 900000000)
                        by (nonlinear_arith)
                        requires
                            tile.y_min <= y < tile.y_max,
                            tile.x_min <= x < tile.x_max,
                            0 <= tw <= 30000,
                            tile.y_max <= 30000,
                            tile.x_max <= 30000,
                    ;
                }
                let bidx = (y - tile.y_min) * tw + (x - tile.x_min);
                let v = buf[bidx];
                let ghost before = self.data@;
                self.data.set(idx, v);
                proof {
                    assert(tile_buf_idx(*tile, w as int, idx as int) == bidx);
                    assert forall|k: int| 0 <= k < pre.len() implies #[trigger] self.data@[k] == (
                    if idx_in_tile(*tile, w as int, k) && (k / (w as int) < y || (k / (w as int)
                        == y && k % (w as int) < x + 1)) {
                        buf@[tile_buf_idx(*tile, w as int, k)]
                    } else {
                        pre[k]
                    }) by {
                        let wi = w as int;
                        if k == idx as int {
                            assert(idx_in_tile(*tile, wi, k));
                            assert(self.data@[k] == buf@[tile_buf_idx(*tile, wi, k)]);
                        } else {
                            vstd::arithmetic::div_mod::lemma_fundamental_div_mod(k, wi);
                            assert(wi * (k / wi) == (k / wi) * wi) by (nonlinear_arith);
                            assert(!(k / wi == y && k % wi == x));
                            assert(self.data@[k] == before[k]);
                        }
                    }
                }
                x = x + 1;
            }
            proof {
                assert forall|idx: int| 0 <= idx < pre.len() implies #[trigger] self.data@[idx]
                    == (if idx_in_tile(*tile, w as int, idx) && idx / (w as int) < y + 1 {
                    buf@[tile_buf_idx(*tile, w as int, idx)]
                } else {
                    pre[idx]
                }) by {}
            }
            y = y + 1;
        }
        proof {
            assert forall|idx: int| 0 <= idx < pre.len() implies #[trigger] self.data@[idx] == (
            if idx_in_tile(*tile, w as int, idx) {
                buf@[tile_buf_idx(*tile, w as int, idx)]
            } else {
                pre[idx]
            }) by {}
        }
    }
}

/// The counting admission gate of the worker pool: at most `limit` tiles may
/// be in flight. `try_admit` is the decision a worker makes holding the
/// lock; a refused worker waits and retries, and `complete` frees a slot
/// when a tile finishes (the caller then wakes one waiter).
#[derive(Debug, Clone, Copy)]
pub struct WorkerGate {
    pub in_flight: usize,
    pub limit: usize,
}

/// Validity: the count of running tiles stays within the limit.
pub open spec fn gate_wf(g: WorkerGate) -> bool {
    g.in_flight <= g.limit
}

impl WorkerGate {
    /// A gate admitting at most `limit` concurrent tiles.
    pub fn new(limit: usize) -> (g: WorkerGate)
        requires
            limit >= 1,
        ensures
            gate_wf(g),
            g.in_flight == 0,
            g.limit == limit,
    {
        WorkerGate { in_flight: 0, limit }
    }

    /// Admit one tile if a slot is free: admission succeeds exactly when the
    /// count is below the limit.
    pub fn try_admit(&mut self) -> (admitted: bool)
        requires
            gate_wf(*old(self)),
        ensures
            gate_wf(*final(self)),
            final(self).limit == old(self).limit,
            admitted == (old(self).in_flight < old(self).limit),
            final(self).in_flight == (if admitted {
                old(self).in_flight + 1
            } else {
                old(self).in_flight as int
            }),
    {
        if self.in_flight < self.limit {
            self.in_flight = self.in_flight + 1;
            true
        } else {
            false
        }
    }

    /// A tile finished: free its slot.
    pub fn complete(&mut self)
        requires
            gate_wf(*old(self)),
            old(self).in_flight >= 1,
        ensures
            gate_wf(*final(self)),
            final(self).limit == old(self).limit,
            final(self).in_flight == old(self).in_flight - 1,
    {
        self.in_flight = self.in_flight - 1;
    }
}

} // verus!
