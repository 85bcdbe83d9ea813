use vstd::prelude::*;
use crate::arith::{floor_div, lerp_spec, linear_interpolation, UNIT};
use crate::blob::{Blob, Vector2, POS_LIMIT};
use crate::params::Params;
use crate::random::random_in;

verus! {

/// Falling mode may begin when the fall roll, drawn from `0..FALL_ROLLS`,
/// is at least `FALL_ROLL_MIN`: a two percent chance per tick.
pub const FALL_ROLLS: u64 = 1000;

pub const FALL_ROLL_MIN: u64 = 980;

/// Falling mode is left once the vertical motion is at least
/// `eps - FALL_EXIT_SLACK`, for a draw `eps` in `0..FALL_EXIT_EPS`.
pub const FALL_EXIT_EPS: u64 = 5;

pub const FALL_EXIT_SLACK: i64 = 1;

/// The random draws of one tick of one blob.
#[derive(Clone, Copy, Debug)]
pub struct TickDraws {
    /// Chance of entering falling mode, in `0..FALL_ROLLS`.
    pub roll: u64,
    /// Tolerance for leaving falling mode, in `0..FALL_EXIT_EPS`.
    pub eps: u64,
    /// Displacement scale, within `fluct` of `UNIT`.
    pub jitter: u64,
}

impl TickDraws {
    pub open spec fn valid(&self, fluct: int) -> bool {
        &&& self.roll < FALL_ROLLS
        &&& self.eps < FALL_EXIT_EPS
        &&& UNIT - fluct <= self.jitter <= UNIT + fluct
    }
}

/// Upward drift at height factor `f`: `1.2 * speed * f`.
pub open spec fn rise_spec(speed: int, f: int) -> int {
    (speed * 6 * f) / (5 * UNIT)
}

/// Downward pull of falling mode at height factor `f`: `speed * (1 - f)`,
/// strongest near the top and vanishing at the bottom.
pub open spec fn pull_spec(speed: int, f: int) -> int {
    (speed * (UNIT - f)) / (UNIT as int)
}

/// The blob starts falling this tick: it is in the top three tenths of the
/// viewport and the roll came up.
pub open spec fn starts_falling(b: Blob, h: int, d: TickDraws) -> bool {
    &&& !b.falling
    &&& d.roll >= FALL_ROLL_MIN
    &&& 10 * b.coord.y > 7 * h * UNIT
}

pub open spec fn falls(b: Blob, h: int, d: TickDraws) -> bool {
    b.falling || starts_falling(b, h, d)
}

/// Vertical velocity added this tick on top of the blob's own.
pub open spec fn lift_spec(b: Blob, h: int, speed: int, d: TickDraws) -> int {
    let f = lerp_spec(b.coord.y as int, h * UNIT);
    if falls(b, h, d) {
        rise_spec(speed, f) - pull_spec(speed, f)
    } else {
        rise_spec(speed, f)
    }
}

/// The velocity of this tick before any reflection.
pub open spec fn resultant_x(b: Blob) -> int {
    b.velocity.x as int
}

pub open spec fn resultant_y(b: Blob, h: int, speed: int, d: TickDraws) -> int {
    b.velocity.y + lift_spec(b, h, speed, d)
}

/// Moving from `p` by `r` leaves `[0, e)`.
pub open spec fn leaves(p: int, r: int, e: int) -> bool {
    !(0 <= p + r < e)
}

/// `r`, negated when moving by it from `p` would leave `[0, e)`.
pub open spec fn reflect(p: int, r: int, e: int) -> int {
    if leaves(p, r, e) {
        -r
    } else {
        r
    }
}

pub open spec fn clamp_pos(p: int) -> int {
    if p < -POS_LIMIT {
        -POS_LIMIT as int
    } else if p > POS_LIMIT {
        POS_LIMIT as int
    } else {
        p
    }
}

/// Reflection cannot keep the blob in view on some axis: both the step and
/// its reverse leave the extent.
pub open spec fn tunnels(b: Blob, w: int, h: int, speed: int, d: TickDraws) -> bool {
    ||| leaves(b.coord.x as int, resultant_x(b), w * UNIT) && leaves(
        b.coord.x as int,
        -resultant_x(b),
        w * UNIT,
    )
    ||| leaves(b.coord.y as int, resultant_y(b, h, speed, d), h * UNIT) && leaves(
        b.coord.y as int,
        -resultant_y(b, h, speed, d),
        h * UNIT,
    )
}

/// The blob after one tick in a `w` by `h` viewport. Each axis whose step
/// would leave the viewport is reflected, in the stored velocity and in the
/// step; the step is scaled by the jitter and added to the position, which
/// is kept within `POS_LIMIT`. Falling mode ends once the reflected vertical
/// step is no longer clearly downward.
pub open spec fn step_spec(b: Blob, w: int, h: int, speed: int, d: TickDraws) -> Blob {
    let rx = resultant_x(b);
    let ry = resultant_y(b, h, speed, d);
    let px = b.coord.x as int;
    let py = b.coord.y as int;
    let sx = reflect(px, rx, w * UNIT);
    let sy = reflect(py, ry, h * UNIT);
    Blob {
        coord: Vector2 {
            x: clamp_pos(px + (sx * d.jitter) / (UNIT as int)) as i64,
            y: clamp_pos(py + (sy * d.jitter) / (UNIT as int)) as i64,
        },
        velocity: Vector2 {
            x: (if leaves(px, rx, w * UNIT) { -b.velocity.x } else { b.velocity.x as int }) as i64,
            y: (if leaves(py, ry, h * UNIT) { -b.velocity.y } else { b.velocity.y as int }) as i64,
        },
        falling: falls(b, h, d) && !(sy >= d.eps - FALL_EXIT_SLACK),
    }
}

fn clamp_coord(p: i128) -> (r: i64)
    ensures
        r == clamp_pos(p as int),
{
    if p < -(POS_LIMIT as i128) {
        -POS_LIMIT
    } else if p > POS_LIMIT as i128 {
        POS_LIMIT
    } else {
        p as i64
    }
}

/// Advances one blob by one tick in a `w` by `h` viewport with the draws `d`.
pub fn step_blob(b: Blob, w: u32, h: u32, params: &Params, d: TickDraws) -> (r: Blob)
    requires
        b.wf(),
        0 < w,
        0 < h,
        params.wf(),
        d.valid(params.fluct as int),
    ensures
        r == step_spec(b, w as int, h as int, params.velocity as int, d),
        r.wf(),
{
    let speed = params.velocity as i128;
    let ew = w as i128 * 1000;
    let eh = h as i128 * 1000;
    let f = linear_interpolation(b.coord.y, h as u64 * 1000) as i128;
    assert(-0x4_0000_0000_0000_0000_0000 <= speed * 6 * f <= 0x4_0000_0000_0000_0000_0000
        && -0x4_0000_0000_0000_0000_0000 <= speed * (1000 - f) <= 0x4_0000_0000_0000_0000_0000)
        by (nonlinear_arith)
        requires 0 <= speed <= 0xffff_ffff, -0x4000_0000_0000 <= f <= 0x4000_0000_0000;
    let rise = floor_div(speed * 6 * f, 5000);
    let starts = !b.falling && d.roll >= FALL_ROLL_MIN && 10 * (b.coord.y as i128) > 7 * eh;
    let falling = b.falling || starts;
    let lift = if falling {
        rise - floor_div(speed * (1000 - f), 1000)
    } else {
        rise
    };
    let px = b.coord.x as i128;
    let py = b.coord.y as i128;
    let rx = b.velocity.x as i128;
    let ry = b.velocity.y as i128 + lift;
    let mut vx = b.velocity.x;
    let mut vy = b.velocity.y;
    let mut sx = rx;
    let mut sy = ry;
    if px + rx < 0 || px + rx >= ew {
        vx = -vx;
        sx = -sx;
    }
    if py + ry < 0 || py + ry >= eh {
        vy = -vy;
        sy = -sy;
    }
    let jitter = d.jitter as i128;
    assert(-0x1_0000_0000_0000_0000_0000_0000 <= sx * jitter <= 0x1_0000_0000_0000_0000_0000_0000
        && -0x1_0000_0000_0000_0000_0000_0000 <= sy * jitter <= 0x1_0000_0000_0000_0000_0000_0000)
        by (nonlinear_arith)
        requires
            -0x10_0000_0000_0000_0000_0000 <= sx <= 0x10_0000_0000_0000_0000_0000,
            -0x10_0000_0000_0000_0000_0000 <= sy <= 0x10_0000_0000_0000_0000_0000,
            0 <= jitter <= 2000;
    let nx = clamp_coord(px + floor_div(sx * jitter, 1000));
    let ny = clamp_coord(py + floor_div(sy * jitter, 1000));
    let still_falling = falling && !(sy >= d.eps as i128 - FALL_EXIT_SLACK as i128);
    Blob {
        coord: Vector2 { x: nx, y: ny },
        velocity: Vector2 { x: vx, y: vy },
        falling: still_falling,
    }
}

pub open spec fn sq_norm(x: int, y: int) -> int {
    x * x + y * y
}

/// Reflection changes no speed: a tick keeps the magnitude of the stored
/// velocity, each reflected step component is the unreflected one or its
/// negation, and the displacement is that step times the one jitter factor
/// of the tick, rounded down to a thousandth of a cell, wherever the
/// position stays within `POS_LIMIT`.
pub proof fn lemma_reflection_keeps_speed(b: Blob, w: int, h: int, speed: int, d: TickDraws)
    requires
        b.wf(),
    ensures
        ({
            let n = step_spec(b, w, h, speed, d);
            sq_norm(n.velocity.x as int, n.velocity.y as int) == sq_norm(
                b.velocity.x as int,
                b.velocity.y as int,
            )
        }),
        ({
            let rx = resultant_x(b);
            let ry = resultant_y(b, h, speed, d);
            sq_norm(
                reflect(b.coord.x as int, rx, w * UNIT),
                reflect(b.coord.y as int, ry, h * UNIT),
            ) == sq_norm(rx, ry)
        }),
        ({
            let sx = reflect(b.coord.x as int, resultant_x(b), w * UNIT);
            sx == resultant_x(b) || sx == -resultant_x(b)
        }),
        ({
            let sy = reflect(b.coord.y as int, resultant_y(b, h, speed, d), h * UNIT);
            sy == resultant_y(b, h, speed, d) || sy == -resultant_y(b, h, speed, d)
        }),
        ({
            let sx = reflect(b.coord.x as int, resultant_x(b), w * UNIT);
            let dx = step_spec(b, w, h, speed, d).coord.x - b.coord.x;
            -POS_LIMIT <= b.coord.x + (sx * d.jitter) / (UNIT as int) <= POS_LIMIT ==> UNIT * dx
                <= sx * d.jitter < UNIT * dx + UNIT
        }),
        ({
            let sy = reflect(b.coord.y as int, resultant_y(b, h, speed, d), h * UNIT);
            let dy = step_spec(b, w, h, speed, d).coord.y - b.coord.y;
            -POS_LIMIT <= b.coord.y + (sy * d.jitter) / (UNIT as int) <= POS_LIMIT ==> UNIT * dy
                <= sy * d.jitter < UNIT * dy + UNIT
        }),
{
    let rx = resultant_x(b);
    let ry = resultant_y(b, h, speed, d);
    let vx = b.velocity.x as int;
    let vy = b.velocity.y as int;
    assert((-vx) * (-vx) == vx * vx && (-vy) * (-vy) == vy * vy) by (nonlinear_arith);
    assert((-rx) * (-rx) == rx * rx && (-ry) * (-ry) == ry * ry) by (nonlinear_arith);
    let sx = reflect(b.coord.x as int, rx, w * UNIT);
    let sy = reflect(b.coord.y as int, ry, h * UNIT);
    let jx = sx * d.jitter;
    let jy = sy * d.jitter;
    assert(1000 * (jx / 1000) <= jx < 1000 * (jx / 1000) + 1000) by (nonlinear_arith);
    assert(1000 * (jy / 1000) <= jy < 1000 * (jy / 1000) + 1000) by (nonlinear_arith);
}

/// With no jitter and no tunnelling, one tick keeps a blob in view.
pub proof fn lemma_step_stays_in_view(b: Blob, w: u32, h: u32, speed: int, d: TickDraws)
    requires
        0 < w,
        0 < h,
        b.in_view(w as int, h as int),
        d.jitter == UNIT,
        !tunnels(b, w as int, h as int, speed, d),
    ensures
        step_spec(b, w as int, h as int, speed, d).in_view(w as int, h as int),
{
    let sx = reflect(b.coord.x as int, resultant_x(b), w * UNIT);
    let sy = reflect(b.coord.y as int, resultant_y(b, h as int, speed, d), h * UNIT);
    assert((sx * 1000) / 1000 == sx) by (nonlinear_arith);
    assert((sy * 1000) / 1000 == sy) by (nonlinear_arith);
    assert(w * UNIT <= POS_LIMIT && h * UNIT <= POS_LIMIT);
}

/// The blob after one tick per entry of `ds`, in order.
pub open spec fn run(b: Blob, w: int, h: int, speed: int, ds: Seq<TickDraws>) -> Blob
    decreases ds.len(),
{
    if ds.len() == 0 {
        b
    } else {
        step_spec(run(b, w, h, speed, ds.drop_last()), w, h, speed, ds.last())
    }
}

/// A blob that starts in view stays in view through any number of ticks
/// without jitter, as long as no tick tunnels past an edge.
pub proof fn lemma_run_stays_in_view(b: Blob, w: u32, h: u32, speed: int, ds: Seq<TickDraws>)
    requires
        0 < w,
        0 < h,
        b.in_view(w as int, h as int),
        forall|k: int| 0 <= k < ds.len() ==> (#[trigger] ds[k]).jitter == UNIT,
        forall|k: int|
            0 <= k < ds.len() ==> !tunnels(
                #[trigger] run(b, w as int, h as int, speed, ds.take(k)),
                w as int,
                h as int,
                speed,
                ds[k],
            ),
    ensures
        run(b, w as int, h as int, speed, ds).in_view(w as int, h as int),
    decreases ds.len(),
{
    if ds.len() > 0 {
        let front = ds.drop_last();
        let last = (ds.len() - 1) as int;
        assert forall|k: int| 0 <= k < front.len() implies !tunnels(
            #[trigger] run(b, w as int, h as int, speed, front.take(k)),
            w as int,
            h as int,
            speed,
            front[k],
        ) by {
            assert(front.take(k) =~= ds.take(k));
            assert(run(b, w as int, h as int, speed, ds.take(k)) == run(b, w as int, h as int, speed, front.take(k)));
            assert(front[k] == ds[k]);
        }
        assert forall|k: int| 0 <= k < front.len() implies (#[trigger] front[k]).jitter == UNIT by {
            assert(front[k] == ds[k]);
        }
        lemma_run_stays_in_view(b, w, h, speed, front);
        assert(ds.take(last) =~= front);
        assert(!tunnels(run(b, w as int, h as int, speed, ds.take(last)), w as int, h as int, speed, ds[last]));
        assert(ds[last].jitter == UNIT);
        lemma_step_stays_in_view(run(b, w as int, h as int, speed, front), w, h, speed, ds.last());
    }
}

/// `next` is what one tick with some valid draws makes of `b`.
pub open spec fn stepped(next: Blob, b: Blob, w: int, h: int, params: Params) -> bool {
    exists|d: TickDraws|
        d.valid(params.fluct as int) && next == #[trigger] step_spec(
            b,
            w,
            h,
            params.velocity as int,
            d,
        )
}

/// Advances every blob by one tick in a `x` by `y` viewport, with fresh
/// random draws for each.
pub fn transform(blobs: Vec<Blob>, x: u32, y: u32, params: &Params) -> (r: Vec<Blob>)
    requires
        0 < x,
        0 < y,
        params.wf(),
        forall|k: int| 0 <= k < blobs.len() ==> #[trigger] blobs[k].wf(),
    ensures
        r.len() == blobs.len(),
        forall|k: int|
            0 <= k < r.len() ==> #[trigger] stepped(r[k], blobs[k], x as int, y as int, *params),
        forall|k: int| 0 <= k < r.len() ==> #[trigger] r[k].wf(),
{
    let mut out: Vec<Blob> = Vec::new();
    let mut i: usize = 0;
    while i < blobs.len()
        invariant
            0 < x,
            0 < y,
            params.wf(),
            forall|k: int| 0 <= k < blobs.len() ==> #[trigger] blobs[k].wf(),
            i <= blobs.len(),
            out.len() == i,
            forall|k: int|
                0 <= k < out.len() ==> #[trigger] stepped(out[k], blobs[k], x as int, y as int, *params),
            forall|k: int| 0 <= k < out.len() ==> #[trigger] out[k].wf(),
        decreases blobs.len() - i,
    {
        let fluct = params.fluct as u64;
        let d = TickDraws {
            roll: random_in(0, FALL_ROLLS),
            eps: random_in(0, FALL_EXIT_EPS),
            jitter: random_in(1000 - fluct, 1000 + fluct + 1),
        };
        let next = step_blob(blobs[i], x, y, params, d);
        out.push(next);
        assert(stepped(out[i as int], blobs[i as int], x as int, y as int, *params));
        i = i + 1;
    }
    out
}

} // verus!
