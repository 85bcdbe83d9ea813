use vstd::prelude::*;
use crate::arith::{trunc_div, trunc_spec, UNIT};
use crate::params::Params;
use vstd::math::abs;
use crate::random::random_in;

verus! {

/// Largest coordinate magnitude a blob can reach, in thousandths of a cell.
pub const POS_LIMIT: i64 = 0x2000_0000_0000;

/// Largest velocity magnitude a blob can have: half the largest speed,
/// with room to spare.
pub const VEL_LIMIT: i64 = 0x1_0000_0000;

/// Half-width of the horizontal velocity range, as a fraction of the speed.
pub const X_SPREAD: u64 = 500;

/// Half-width of the vertical velocity range, as a fraction of the speed.
pub const Y_SPREAD: u64 = 300;

/// A pair of fixed-point coordinates.
#[derive(Clone, Copy, Debug, PartialEq, Eq, Structural)]
pub struct Vector2 {
    pub x: i64,
    pub y: i64,
}

/// One moving point source of the field.
#[derive(Clone, Copy, Debug, PartialEq, Eq, Structural)]
pub struct Blob {
    /// Position, in thousandths of a cell; `y` grows upward.
    pub coord: Vector2,
    /// Velocity, in thousandths of a cell per tick.
    pub velocity: Vector2,
    /// Whether the blob is being pulled down.
    pub falling: bool,
}

impl Blob {
    /// Coordinates and velocities stay within the ranges the arithmetic is
    /// proved for.
    pub open spec fn wf(&self) -> bool {
        &&& -POS_LIMIT <= self.coord.x <= POS_LIMIT
        &&& -POS_LIMIT <= self.coord.y <= POS_LIMIT
        &&& -VEL_LIMIT <= self.velocity.x <= VEL_LIMIT
        &&& -VEL_LIMIT <= self.velocity.y <= VEL_LIMIT
    }

    /// The blob lies in the viewport of `w` by `h` cells.
    pub open spec fn in_view(&self, w: int, h: int) -> bool {
        &&& 0 <= self.coord.x < w * UNIT
        &&& 0 <= self.coord.y < h * UNIT
    }
}

/// `n` is the blob count for a `w` by `h` viewport and a density `d`
/// (scaled by `UNIT`): the integer cube root of `w * h / d`.
pub open spec fn is_blob_count(n: int, w: int, h: int, d: int) -> bool {
    &&& 0 <= n
    &&& n * n * n * d <= w * h * UNIT
    &&& w * h * UNIT < (n + 1) * (n + 1) * (n + 1) * d
}

/// The number of blobs for a `w` by `h` viewport: `floor(cbrt(w * h / d))`
/// for the density `d` scaled by `UNIT`.
pub fn blob_count(w: u32, h: u32, density: u32) -> (n: u64)
    requires
        0 < density,
    ensures
        is_blob_count(n as int, w as int, h as int, density as int),
{
    assert((w as int) * (h as int) <= 0xffff_ffff * 0xffff_ffff) by (nonlinear_arith)
        requires w <= 0xffff_ffff, h <= 0xffff_ffff;
    let wh = w as u128 * h as u128;
    assert(wh * 1000 <= 0x400_0000_0000_0000_0000) by (nonlinear_arith)
        requires wh == w * h, w < 0x1_0000_0000, h < 0x1_0000_0000;
    let area: u128 = wh * 1000;
    let d = density as u128;
    let mut n: u128 = 0;
    assert(n * n * n * d == 0) by (nonlinear_arith)
        requires n == 0;
    loop
        invariant
            area == w * h * UNIT,
            d == density,
            0 < d < 0x1_0000_0000,
            area <= 0x400_0000_0000_0000_0000,
            n * n * n * d <= area,
            n < 0x200_0000,
        decreases 0x200_0000 - n,
    {
        let next = n + 1;
        assert(next * next <= 0x4_0000_0000_0000) by (nonlinear_arith)
            requires 0 < next <= 0x200_0000;
        let sq = next * next;
        assert(sq * next <= 0x800_0000_0000_0000_0000) by (nonlinear_arith)
            requires sq <= 0x4_0000_0000_0000, 0 < next <= 0x200_0000;
        let cube = sq * next;
        assert(cube * d <= 0x800_0000_0000_0000_0000 * 0x1_0000_0000) by (nonlinear_arith)
            requires cube <= 0x800_0000_0000_0000_0000, 0 < d < 0x1_0000_0000;
        if cube * d > area {
            return n as u64;
        }
        assert(next < 0x200_0000) by (nonlinear_arith)
            requires
                cube == next * next * next,
                cube * d <= area,
                area <= 0x400_0000_0000_0000_0000,
                0 < d,
                0 < next,
        {
            if next >= 0x200_0000 {
                assert(next * next >= 0x4_0000_0000_0000);
                assert(cube >= 0x800_0000_0000_0000_0000);
                assert(cube * d >= cube);
            }
        }
        n = next;
    }
}

/// Two counts for the same viewport and density agree: the count is a
/// function of `(w, h, d)` alone. So two calls of `gen_blobs` with the same
/// viewport and density return as many blobs, whatever their draws and
/// other parameters, since both lengths satisfy `is_blob_count`.
pub proof fn lemma_blob_count_unique(n1: int, n2: int, w: int, h: int, d: int)
    requires
        0 < d,
        is_blob_count(n1, w, h, d),
        is_blob_count(n2, w, h, d),
    ensures
        n1 == n2,
{
    if n1 < n2 {
        assert((n1 + 1) * (n1 + 1) * (n1 + 1) * d <= n2 * n2 * n2 * d) by (nonlinear_arith)
            requires 0 <= n1, n1 + 1 <= n2, 0 < d;
    } else if n2 < n1 {
        assert((n2 + 1) * (n2 + 1) * (n2 + 1) * d <= n1 * n1 * n1 * d) by (nonlinear_arith)
            requires 0 <= n2, n2 + 1 <= n1, 0 < d;
    }
}

/// The random draws that place one new blob.
#[derive(Clone, Copy, Debug)]
pub struct SpawnDraws {
    /// Horizontal position, in `0..w * UNIT`.
    pub px: u64,
    /// Vertical position, in `0..h * UNIT`.
    pub py: u64,
    /// Horizontal velocity fraction, in `0..2 * X_SPREAD`.
    pub rx: u64,
    /// Vertical velocity fraction, in `0..2 * Y_SPREAD`.
    pub ry: u64,
}

impl SpawnDraws {
    pub open spec fn valid(&self, w: int, h: int) -> bool {
        &&& self.px < w * UNIT
        &&& self.py < h * UNIT
        &&& self.rx < 2 * X_SPREAD
        &&& self.ry < 2 * Y_SPREAD
    }
}

/// The blob that the draws `d` place: at `(px, py)`, with each velocity
/// component the centred draw times the speed, rounded toward zero so that
/// the ranges stay symmetric.
pub open spec fn spawn_spec(d: SpawnDraws, speed: int) -> Blob {
    Blob {
        coord: Vector2 { x: d.px as i64, y: d.py as i64 },
        velocity: Vector2 {
            x: trunc_spec((d.rx - X_SPREAD) * speed, UNIT as int) as i64,
            y: trunc_spec((d.ry - Y_SPREAD) * speed, UNIT as int) as i64,
        },
        falling: false,
    }
}

/// `b` is a blob that some valid draws place in a `w` by `h` viewport.
pub open spec fn spawned(b: Blob, w: int, h: int, speed: int) -> bool {
    exists|d: SpawnDraws| d.valid(w, h) && b == #[trigger] spawn_spec(d, speed)
}

/// A centred draw `c` of at most `m` thousandths, times the speed and
/// rounded toward zero, stays within `m` thousandths of the speed.
proof fn lemma_trunc_half(c: int, speed: int, m: int)
    requires
        -m <= c <= m,
        0 <= speed,
        0 <= m <= 1000,
    ensures
        1000 * abs(trunc_spec(c * speed, 1000)) <= m * speed,
        abs(trunc_spec(c * speed, 1000)) <= speed,
{
    if c >= 0 {
        assert(1000 * ((c * speed) / 1000) <= m * speed && (c * speed) / 1000 <= speed && 0 <= (c * speed) / 1000)
            by (nonlinear_arith)
            requires 0 <= c <= m, 0 <= speed, m <= 1000;
    } else {
        assert(1000 * (((-c) * speed) / 1000) <= m * speed && ((-c) * speed) / 1000 <= speed && 0 <= ((-c) * speed) / 1000)
            by (nonlinear_arith)
            requires 0 < -c <= m, 0 <= speed, m <= 1000;
        assert(-(c * speed) == (-c) * speed) by (nonlinear_arith);
    }
}

/// Builds the blob that the draws `d` place in a `w` by `h` viewport.
pub fn blob_from_draws(d: SpawnDraws, w: u32, h: u32, params: &Params) -> (b: Blob)
    requires
        d.valid(w as int, h as int),
        params.wf(),
    ensures
        b == spawn_spec(d, params.velocity as int),
        b.wf(),
        b.in_view(w as int, h as int),
        !b.falling,
        2 * abs(b.velocity.x as int) <= params.velocity,
        10 * abs(b.velocity.y as int) <= 3 * params.velocity,
{
    let speed = params.velocity as i128;
    let cx = d.rx as i128 - X_SPREAD as i128;
    let cy = d.ry as i128 - Y_SPREAD as i128;
    assert(-0x1000_0000_0000 <= cx * speed <= 0x1000_0000_0000 && -0x1000_0000_0000 <= cy * speed <= 0x1000_0000_0000)
        by (nonlinear_arith)
        requires -500 <= cx <= 500, -300 <= cy <= 300, 0 <= speed <= 0xffff_ffff;
    let vx = trunc_div(cx * speed, 1000);
    let vy = trunc_div(cy * speed, 1000);
    proof {
        assert(-0x1000_0000_0000 <= vx <= 0x1000_0000_0000 && -0x1000_0000_0000 <= vy <= 0x1000_0000_0000);
        lemma_trunc_half(cx as int, speed as int, 500);
        lemma_trunc_half(cy as int, speed as int, 300);
    }
    assert(d.px < 0x2000_0000_0000 && d.py < 0x2000_0000_0000) by (nonlinear_arith)
        requires d.px < w * 1000, d.py < h * 1000, w < 0x1_0000_0000, h < 0x1_0000_0000;
    Blob {
        coord: Vector2 { x: d.px as i64, y: d.py as i64 },
        velocity: Vector2 { x: vx as i64, y: vy as i64 },
        falling: false,
    }
}

/// Creates the blobs for a `w` by `h` viewport, each placed and set moving
/// at random.
pub fn gen_blobs(x: &u32, y: &u32, params: &Params) -> (blobs: Vec<Blob>)
    requires
        0 < *x,
        0 < *y,
        params.wf(),
    ensures
        is_blob_count(blobs.len() as int, *x as int, *y as int, params.density as int),
        forall|k: int|
            0 <= k < blobs.len() ==> #[trigger] spawned(
                blobs[k],
                *x as int,
                *y as int,
                params.velocity as int,
            ),
        forall|k: int|
            0 <= k < blobs.len() ==> blobs[k].wf() && blobs[k].in_view(*x as int, *y as int),
        forall|k: int|
            0 <= k < blobs.len() ==> 2 * abs(#[trigger] blobs[k].velocity.x as int) <= params.velocity
                && 10 * abs(blobs[k].velocity.y as int) <= 3 * params.velocity && !blobs[k].falling,
{
    let w = *x;
    let h = *y;
    let count = blob_count(w, h, params.density);
    let mut blobs: Vec<Blob> = Vec::new();
    let mut i: u64 = 0;
    while i < count
        invariant
            0 < w,
            0 < h,
            params.wf(),
            i <= count,
            blobs.len() == i,
            forall|k: int|
                0 <= k < blobs.len() ==> #[trigger] spawned(
                    blobs[k],
                    w as int,
                    h as int,
                    params.velocity as int,
                ),
            forall|k: int|
                0 <= k < blobs.len() ==> blobs[k].wf() && blobs[k].in_view(w as int, h as int),
            forall|k: int|
                0 <= k < blobs.len() ==> 2 * abs(#[trigger] blobs[k].velocity.x as int) <= params.velocity
                    && 10 * abs(blobs[k].velocity.y as int) <= 3 * params.velocity && !blobs[k].falling,
        decreases count - i,
    {
        let d = SpawnDraws {
            px: random_in(0, w as u64 * 1000),
            py: random_in(0, h as u64 * 1000),
            rx: random_in(0, 2 * X_SPREAD),
            ry: random_in(0, 2 * Y_SPREAD),
        };
        let b = blob_from_draws(d, w, h, params);
        blobs.push(b);
        i = i + 1;
        assert(spawned(blobs[i - 1], w as int, h as int, params.velocity as int));
    }
    blobs
}

} // verus!
