use vstd::prelude::*;
use crate::arith::{lerp_spec, linear_interpolation, UNIT};
use crate::params::{Params, Rgb};
use crate::random::random_in;

verus! {

/// Hue kept at the bottom row is `UNIT` minus these fractions, for cells
/// inside a blob and for background cells.
pub const FG_HUE_SHIFT: i64 = 200;

pub const BG_HUE_SHIFT: i64 = 500;

/// What a cell shows before its hue is shifted. `base` is the run colour
/// scaled by the cell's value; the hue of `base` is to be multiplied by
/// `hue_keep / UNIT`.
#[derive(Clone, Copy, Debug, PartialEq, Eq, Structural)]
pub enum Shade {
    /// A cell inside a blob.
    Foreground { base: Rgb, hue_keep: u32 },
    /// A cell outside every blob, to get a dim complementary tint.
    Background { base: Rgb, hue_keep: u32 },
    /// A cell left in the terminal's default colour.
    Blank,
}

pub open spec fn scale_channel(c: u8, value: int) -> u8 {
    ((c * value) / (UNIT as int)) as u8
}

/// The colour `c` with each channel scaled by `value / UNIT`, truncated.
pub open spec fn scale_spec(c: Rgb, value: int) -> Rgb {
    Rgb {
        r: scale_channel(c.r, value),
        g: scale_channel(c.g, value),
        b: scale_channel(c.b, value),
    }
}

fn scale_u8(c: u8, value: u32) -> (r: u8)
    requires
        value <= UNIT,
    ensures
        r == scale_channel(c, value as int),
{
    assert((c * value) / 1000 <= 255) by (nonlinear_arith)
        requires c <= 255, value <= 1000;
    (c as u32 * value / 1000) as u8
}

/// Scales each channel of `c` by `value / UNIT`.
pub fn scale_color(c: Rgb, value: u32) -> (r: Rgb)
    requires
        value <= UNIT,
    ensures
        r == scale_spec(c, value as int),
{
    Rgb { r: scale_u8(c.r, value), g: scale_u8(c.g, value), b: scale_u8(c.b, value) }
}

/// Height factor of row `row` in a grid of `height` rows.
pub open spec fn row_factor(row: int, height: int) -> int {
    lerp_spec(row * UNIT, height * UNIT + UNIT / 2)
}

/// Fraction of hue kept in row `row`: `UNIT - shift * factor / UNIT`.
pub open spec fn hue_keep_spec(shift: int, row: int, height: int) -> int {
    UNIT - (shift * row_factor(row, height)) / (UNIT as int)
}

/// The shade of a cell of value `value` in row `row` of `height` rows.
pub open spec fn shade_spec(value: int, row: int, height: int, params: Params) -> Shade {
    if value >= params.threshold {
        Shade::Foreground {
            base: scale_spec(params.color, value),
            hue_keep: hue_keep_spec(FG_HUE_SHIFT as int, row, height) as u32,
        }
    } else if params.background_enable {
        Shade::Background {
            base: scale_spec(params.color, value),
            hue_keep: hue_keep_spec(BG_HUE_SHIFT as int, row, height) as u32,
        }
    } else {
        Shade::Blank
    }
}

fn hue_keep(shift: i64, row: u32, height: u32) -> (r: u32)
    requires
        0 <= shift <= UNIT,
        row < height,
    ensures
        r == hue_keep_spec(shift as int, row as int, height as int),
        0 <= hue_keep_spec(shift as int, row as int, height as int) <= UNIT,
{
    let f = linear_interpolation(row as i64 * 1000, height as u64 * 1000 + 500);
    assert(0 <= f <= 1000);
    assert(0 <= shift * f / 1000 <= 1000) by (nonlinear_arith)
        requires 0 <= shift <= 1000, 0 <= f <= 1000;
    (1000 - shift * f / 1000) as u32
}

/// The shade of a cell of value `value` in row `row` of `height` rows:
/// inside cells at or above the threshold, a background tint below it when
/// enabled, blank otherwise.
pub fn shade_cell(value: u32, row: u32, height: u32, params: &Params) -> (s: Shade)
    requires
        value <= UNIT,
        row < height,
        params.wf(),
    ensures
        s == shade_spec(value as int, row as int, height as int, *params),
{
    if value >= params.threshold {
        Shade::Foreground {
            base: scale_color(params.color, value),
            hue_keep: hue_keep(FG_HUE_SHIFT, row, height),
        }
    } else if params.background_enable {
        Shade::Background {
            base: scale_color(params.color, value),
            hue_keep: hue_keep(BG_HUE_SHIFT, row, height),
        }
    } else {
        Shade::Blank
    }
}

/// Above the threshold, a larger value never gives a darker colour: every
/// channel of the scaled colour is at least as bright.
pub proof fn lemma_shade_monotonic(v1: int, v2: int, row: int, height: int, params: Params)
    requires
        params.wf(),
        params.threshold <= v1 <= v2 <= UNIT,
    ensures
        shade_spec(v1, row, height, params) is Foreground,
        shade_spec(v2, row, height, params) is Foreground,
        shade_spec(v1, row, height, params)->Foreground_base.r <= shade_spec(v2, row, height, params)->Foreground_base.r,
        shade_spec(v1, row, height, params)->Foreground_base.g <= shade_spec(v2, row, height, params)->Foreground_base.g,
        shade_spec(v1, row, height, params)->Foreground_base.b <= shade_spec(v2, row, height, params)->Foreground_base.b,
{
    lemma_scale_channel_monotonic(params.color.r, v1, v2);
    lemma_scale_channel_monotonic(params.color.g, v1, v2);
    lemma_scale_channel_monotonic(params.color.b, v1, v2);
}

proof fn lemma_scale_channel_monotonic(c: u8, v1: int, v2: int)
    requires
        0 <= v1 <= v2 <= UNIT,
    ensures
        scale_channel(c, v1) <= scale_channel(c, v2),
        (c * v2) / (UNIT as int) <= 255,
{
    assert((c * v1) / 1000 <= (c * v2) / 1000 && 0 <= (c * v1) / 1000 && (c * v2) / 1000 <= 255)
        by (nonlinear_arith)
        requires 0 <= v1 <= v2 <= 1000, 0 <= c <= 255;
}

/// The dim complement of a channel: a fifth of its distance from 255.
pub open spec fn tint_channel(c: u8) -> u8 {
    ((255 - c) / 5) as u8
}

/// The background tint of a hue-shifted colour `c`: its photometric inverse
/// scaled down to a fifth.
pub fn background_tint(c: Rgb) -> (r: Rgb)
    ensures
        r == (Rgb { r: tint_channel(c.r), g: tint_channel(c.g), b: tint_channel(c.b) }),
{
    Rgb { r: (255 - c.r) / 5, g: (255 - c.g) / 5, b: (255 - c.b) / 5 }
}

/// `s` with the entries at `i` and `j` exchanged.
pub open spec fn swap_spec(s: Seq<u8>, i: int, j: int) -> Seq<u8> {
    s.update(i, s[j]).update(j, s[i])
}

/// The channels that the draws make: `(lo, mid, hi)` shuffled by exchanging
/// the last entry with entry `j2`, then the middle one with entry `j1`.
pub open spec fn palette_spec(lo: u8, mid: u8, hi: u8, j2: int, j1: int) -> Seq<u8> {
    swap_spec(swap_spec(seq![lo, mid, hi], 2, j2), 1, j1)
}

/// The colour that the draws make, as `palette_spec` orders its channels.
pub fn palette_from_draws(lo: u8, mid: u8, hi: u8, j2: u64, j1: u64) -> (c: Rgb)
    requires
        j2 <= 2,
        j1 <= 1,
    ensures
        seq![c.r, c.g, c.b] == palette_spec(lo, mid, hi, j2 as int, j1 as int),
{
    let mut v: Vec<u8> = vec![lo, mid, hi];
    let t = v[2];
    let o = v[j2 as usize];
    v.set(2, o);
    v.set(j2 as usize, t);
    let t = v[1];
    let o = v[j1 as usize];
    v.set(1, o);
    v.set(j1 as usize, t);
    let c = Rgb { r: v[0], g: v[1], b: v[2] };
    assert(seq![c.r, c.g, c.b] =~= palette_spec(lo, mid, hi, j2 as int, j1 as int));
    c
}

/// Channel bands of a random colour: one channel is dark, one medium, one
/// bright.
pub open spec fn in_band(c: u8, lo: int, hi: int) -> bool {
    lo <= c < hi
}

pub open spec fn band_count(c: Rgb, lo: int, hi: int) -> int {
    (if in_band(c.r, lo, hi) { 1int } else { 0int }) + (if in_band(c.g, lo, hi) { 1int } else { 0int })
        + (if in_band(c.b, lo, hi) { 1int } else { 0int })
}

/// A random colour: one channel from `20..50`, one from `50..150` and one
/// from `150..255`, in a random order.
pub fn gen_color() -> (c: Rgb)
    ensures
        band_count(c, 20, 50) == 1,
        band_count(c, 50, 150) == 1,
        band_count(c, 150, 255) == 1,
{
    let lo = random_in(20, 50) as u8;
    let mid = random_in(50, 150) as u8;
    let hi = random_in(150, 255) as u8;
    let j2 = random_in(0, 3);
    let j1 = random_in(0, 2);
    let c = palette_from_draws(lo, mid, hi, j2, j1);
    assert(seq![c.r, c.g, c.b][0] == c.r && seq![c.r, c.g, c.b][1] == c.g && seq![c.r, c.g, c.b][2] == c.b);
    c
}

} // verus!
