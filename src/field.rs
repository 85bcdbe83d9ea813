use vstd::prelude::*;
use crate::arith::UNIT;
use crate::blob::{Blob, POS_LIMIT};
use crate::color::{shade_cell, shade_spec, Shade};
use crate::params::Params;

verus! {

/// A shaded frame: one row per viewport row, bottom row first.
pub type Grid = Vec<Vec<Shade>>;

/// `r` is the integer square root of `n`.
pub open spec fn is_root(r: int, n: int) -> bool {
    0 <= r && r * r <= n && n < (r + 1) * (r + 1)
}

/// The integer square root of a non-negative `n`.
pub open spec fn root(n: int) -> int {
    choose|r: int| is_root(r, n)
}

pub proof fn lemma_root_unique(r1: int, r2: int, n: int)
    requires
        is_root(r1, n),
        is_root(r2, n),
    ensures
        r1 == r2,
{
    if r1 < r2 {
        assert((r1 + 1) * (r1 + 1) <= r2 * r2) by (nonlinear_arith)
            requires 0 <= r1, r1 + 1 <= r2;
    } else if r2 < r1 {
        assert((r2 + 1) * (r2 + 1) <= r1 * r1) by (nonlinear_arith)
            requires 0 <= r2, r2 + 1 <= r1;
    }
}

/// The integer square root grows with its argument.
pub proof fn lemma_root_monotonic(r1: int, n1: int, r2: int, n2: int)
    requires
        is_root(r1, n1),
        is_root(r2, n2),
        n1 <= n2,
    ensures
        r1 <= r2,
{
    if r1 > r2 {
        assert((r2 + 1) * (r2 + 1) <= r1 * r1) by (nonlinear_arith)
            requires 0 <= r2, r2 + 1 <= r1;
    }
}

/// Integer square root by bisection.
pub fn isqrt(n: u128) -> (r: u128)
    requires
        n < 0x10_0000_0000_0000_0000_0000_0000,
    ensures
        is_root(r as int, n as int),
        r == root(n as int),
{
    let mut lo: u128 = 0;
    let mut hi: u128 = 0x4_0000_0000_0000;
    assert(hi * hi == 0x10_0000_0000_0000_0000_0000_0000) by (nonlinear_arith)
        requires hi == 0x4_0000_0000_0000;
    while lo + 1 < hi
        invariant
            lo < hi <= 0x4_0000_0000_0000,
            lo * lo <= n,
            n < hi * hi,
        decreases hi - lo,
    {
        let mid = lo + (hi - lo) / 2;
        assert(mid * mid <= 0x10_0000_0000_0000_0000_0000_0000) by (nonlinear_arith)
            requires mid <= 0x4_0000_0000_0000;
        if mid * mid <= n {
            lo = mid;
        } else {
            hi = mid;
        }
    }
    proof {
        assert(is_root(lo as int, n as int));
        lemma_root_unique(lo as int, root(n as int), n as int);
    }
    lo
}

/// Squared distance, in squared thousandths of a cell, from the cell in row
/// `i` and column `j` to the blob.
pub open spec fn dist2(b: Blob, i: int, j: int) -> int {
    let dx = j * UNIT - b.coord.x;
    let dy = i * UNIT - b.coord.y;
    dx * dx + dy * dy
}

/// Influence of a blob at squared distance `d2`: `1 / distance`, scaled by
/// `UNIT`, with the distance clamped below to one thousandth of a cell.
pub open spec fn influence(d2: int) -> int {
    let r = root(d2);
    if r <= 0 {
        UNIT * UNIT
    } else {
        (UNIT * UNIT) / r
    }
}

/// The sum of the influences of `blobs` at row `i`, column `j`.
pub open spec fn influence_sum(blobs: Seq<Blob>, i: int, j: int) -> int
    decreases blobs.len(),
{
    if blobs.len() == 0 {
        0
    } else {
        influence_sum(blobs.drop_last(), i, j) + influence(dist2(blobs.last(), i, j))
    }
}

pub open spec fn min_int(a: int, b: int) -> int {
    if a <= b {
        a
    } else {
        b
    }
}

/// The field value at row `i`, column `j`: the summed influence, saturated
/// at `UNIT`.
pub open spec fn field_value(blobs: Seq<Blob>, i: int, j: int) -> int {
    min_int(UNIT as int, influence_sum(blobs, i, j))
}

proof fn lemma_influence_nonneg(d2: int)
    ensures
        0 <= influence(d2),
{
    let r = root(d2);
    if r > 0 {
        assert((UNIT * UNIT) / r >= 0) by (nonlinear_arith)
            requires r > 0;
    }
}

/// The field value of the cell in row `i` and column `j`.
pub fn cell_value(blobs: &Vec<Blob>, i: u32, j: u32) -> (v: u32)
    requires
        forall|k: int| 0 <= k < blobs.len() ==> #[trigger] blobs[k].wf(),
    ensures
        v == field_value(blobs@, i as int, j as int),
        v <= UNIT,
{
    let mut acc: u32 = 0;
    let mut k: usize = 0;
    while k < blobs.len()
        invariant
            forall|k: int| 0 <= k < blobs.len() ==> #[trigger] blobs[k].wf(),
            k <= blobs.len(),
            acc == field_value(blobs@.take(k as int), i as int, j as int),
            acc <= UNIT,
        decreases blobs.len() - k,
    {
        let b = blobs[k];
        assert(b.wf());
        let dx = j as i128 * 1000 - b.coord.x as i128;
        let dy = i as i128 * 1000 - b.coord.y as i128;
        assert(0 <= dx * dx && 0 <= dy * dy && dx * dx <= 0x1000_0000_0000_0000_0000_0000 && dy * dy <= 0x1000_0000_0000_0000_0000_0000
            && dx * dx + dy * dy < 0x10_0000_0000_0000_0000_0000_0000) by (nonlinear_arith)
            requires
                -0x4000_0000_0000 <= dx <= 0x4000_0000_0000,
                -0x4000_0000_0000 <= dy <= 0x4000_0000_0000;
        let dx2 = dx * dx;
        let dy2 = dy * dy;
        let d2 = (dx2 + dy2) as u128;
        assert(d2 == dist2(b, i as int, j as int));
        let r = isqrt(d2);
        let c: u128 = if r == 0 {
            1_000_000
        } else {
            1_000_000 / r
        };
        assert(c == influence(d2 as int));
        let next: u32 = if c >= 1000 - acc as u128 {
            1000
        } else {
            acc + c as u32
        };
        proof {
            let front = blobs@.take(k as int);
            let grown = blobs@.take(k + 1);
            assert(grown.drop_last() =~= front);
            assert(grown.last() == b);
            lemma_influence_nonneg(dist2(b, i as int, j as int));
            assert(influence_sum(grown, i as int, j as int) == influence_sum(front, i as int, j as int) + c);
            if influence_sum(front, i as int, j as int) >= UNIT {
                assert(acc == UNIT);
            }
        }
        acc = next;
        k = k + 1;
    }
    assert(blobs@.take(blobs.len() as int) =~= blobs@);
    acc
}

/// The field values of a `w` by `h` viewport: one row per viewport row,
/// bottom row first.
pub fn field_grid(blobs: &Vec<Blob>, w: u32, h: u32) -> (g: Vec<Vec<u32>>)
    requires
        forall|k: int| 0 <= k < blobs.len() ==> #[trigger] blobs[k].wf(),
    ensures
        g.len() == h,
        forall|i: int| 0 <= i < h ==> (#[trigger] g[i]).len() == w,
        forall|i: int, j: int|
            0 <= i < h && 0 <= j < w ==> #[trigger] g[i][j] == field_value(blobs@, i, j),
{
    let mut g: Vec<Vec<u32>> = Vec::new();
    let mut i: u32 = 0;
    while i < h
        invariant
            forall|k: int| 0 <= k < blobs.len() ==> #[trigger] blobs[k].wf(),
            i <= h,
            g.len() == i,
            forall|a: int| 0 <= a < i ==> (#[trigger] g[a]).len() == w,
            forall|a: int, b: int|
                0 <= a < i && 0 <= b < w ==> #[trigger] g[a][b] == field_value(blobs@, a, b),
        decreases h - i,
    {
        let mut row: Vec<u32> = Vec::new();
        let mut j: u32 = 0;
        while j < w
            invariant
                forall|k: int| 0 <= k < blobs.len() ==> #[trigger] blobs[k].wf(),
                j <= w,
                row.len() == j,
                forall|b: int| 0 <= b < j ==> #[trigger] row[b] == field_value(blobs@, i as int, b),
            decreases w - j,
        {
            row.push(cell_value(blobs, i, j));
            j = j + 1;
        }
        g.push(row);
        i = i + 1;
    }
    g
}

/// Shades a `x` by `y` viewport: each cell's field value, mapped by
/// `shade_cell` with its row; rows run bottom first.
pub fn metaballise(blobs: &Vec<Blob>, x: &u32, y: &u32, params: &Params) -> (g: Grid)
    requires
        forall|k: int| 0 <= k < blobs.len() ==> #[trigger] blobs[k].wf(),
        params.wf(),
    ensures
        g.len() == *y,
        forall|i: int| 0 <= i < *y ==> (#[trigger] g[i]).len() == *x,
        forall|i: int, j: int|
            0 <= i < *y && 0 <= j < *x ==> #[trigger] g[i][j] == shade_spec(
                field_value(blobs@, i, j),
                i,
                *y as int,
                *params,
            ),
{
    let w = *x;
    let h = *y;
    let mut g: Grid = Vec::new();
    let mut i: u32 = 0;
    while i < h
        invariant
            forall|k: int| 0 <= k < blobs.len() ==> #[trigger] blobs[k].wf(),
            params.wf(),
            i <= h,
            g.len() == i,
            forall|a: int| 0 <= a < i ==> (#[trigger] g[a]).len() == w,
            forall|a: int, b: int|
                0 <= a < i && 0 <= b < w ==> #[trigger] g[a][b] == shade_spec(
                    field_value(blobs@, a, b),
                    a,
                    h as int,
                    *params,
                ),
        decreases h - i,
    {
        let mut row: Vec<Shade> = Vec::new();
        let mut j: u32 = 0;
        while j < w
            invariant
                forall|k: int| 0 <= k < blobs.len() ==> #[trigger] blobs[k].wf(),
                params.wf(),
                i < h,
                j <= w,
                row.len() == j,
                forall|b: int|
                    0 <= b < j ==> #[trigger] row[b] == shade_spec(
                        field_value(blobs@, i as int, b),
                        i as int,
                        h as int,
                        *params,
                    ),
            decreases w - j,
        {
            let v = cell_value(blobs, i, j);
            row.push(shade_cell(v, i, h, params));
            j = j + 1;
        }
        g.push(row);
        i = i + 1;
    }
    g
}

proof fn lemma_root_exists(n: nat)
    ensures
        exists|r: int| is_root(r, n as int),
    decreases n,
{
    if n == 0 {
        assert(is_root(0, 0));
    } else {
        lemma_root_exists((n - 1) as nat);
        let m = n - 1;
        let r = choose|r: int| is_root(r, m);
        if (r + 1) * (r + 1) <= n {
            assert(n < (r + 2) * (r + 2)) by (nonlinear_arith)
                requires n - 1 < (r + 1) * (r + 1), 0 <= r;
            assert(is_root(r + 1, n as int));
        } else {
            assert(is_root(r, n as int));
        }
    }
}

proof fn lemma_root_of(n: int)
    requires
        0 <= n,
    ensures
        is_root(root(n), n),
{
    lemma_root_exists(n as nat);
}

/// Influence never grows with distance, and within one cell it reaches at
/// least the saturated value.
proof fn lemma_influence_falls(d1: int, d2: int)
    requires
        0 <= d1 <= d2,
    ensures
        influence(d1) >= influence(d2),
        d1 <= UNIT * UNIT ==> influence(d1) >= UNIT,
{
    lemma_root_of(d1);
    lemma_root_of(d2);
    let r1 = root(d1);
    let r2 = root(d2);
    lemma_root_monotonic(r1, d1, r2, d2);
    if r1 > 0 {
        assert((UNIT * UNIT) / r1 >= (UNIT * UNIT) / r2) by (nonlinear_arith)
            requires 0 < r1 <= r2;
    } else if r2 > 0 {
        assert((UNIT * UNIT) / r2 <= UNIT * UNIT) by (nonlinear_arith)
            requires 0 < r2;
    }
    if d1 <= UNIT * UNIT && r1 > 0 {
        assert(r1 <= UNIT) by (nonlinear_arith)
            requires r1 * r1 <= d1, d1 <= 1000 * 1000, 0 < r1;
        assert((UNIT * UNIT) / r1 >= UNIT) by (nonlinear_arith)
            requires 0 < r1 <= 1000;
    }
}

/// The field of a single blob peaks at the blob: it never exceeds the
/// saturated value `UNIT`, reaches it at every cell within one cell of the
/// blob, and never grows with the distance from the blob.
pub proof fn lemma_single_blob_peak(b: Blob, i1: int, j1: int, i2: int, j2: int)
    ensures
        field_value(seq![b], i1, j1) <= UNIT,
        field_value(seq![b], i1, j1) == min_int(UNIT as int, influence(dist2(b, i1, j1))),
        dist2(b, i1, j1) <= dist2(b, i2, j2) ==> field_value(seq![b], i1, j1) >= field_value(
            seq![b],
            i2,
            j2,
        ),
        dist2(b, i1, j1) <= UNIT * UNIT ==> field_value(seq![b], i1, j1) == UNIT,
{
    let s = seq![b];
    assert(s.drop_last() =~= Seq::<Blob>::empty());
    assert(s.last() == b);
    assert(influence_sum(s.drop_last(), i1, j1) == 0);
    assert(influence_sum(s.drop_last(), i2, j2) == 0);
    assert(influence_sum(s, i1, j1) == influence(dist2(b, i1, j1)));
    assert(influence_sum(s, i2, j2) == influence(dist2(b, i2, j2)));
    let dx1 = j1 * UNIT - b.coord.x;
    let dy1 = i1 * UNIT - b.coord.y;
    assert(0 <= dx1 * dx1 + dy1 * dy1) by (nonlinear_arith);
    if dist2(b, i1, j1) <= dist2(b, i2, j2) {
        lemma_influence_falls(dist2(b, i1, j1), dist2(b, i2, j2));
    }
    if dist2(b, i1, j1) <= UNIT * UNIT {
        lemma_influence_falls(dist2(b, i1, j1), dist2(b, i1, j1));
    }
}

/// The inside region of a single blob is a disk: a cell reaches the
/// threshold `t` exactly when its distance from the blob, in thousandths of
/// a cell, is below `UNIT * UNIT / t + 1`, that is when it is at most
/// `1 / t` cells to within a thousandth of a cell.
pub proof fn lemma_single_blob_disk(b: Blob, i: int, j: int, t: int)
    requires
        0 < t <= UNIT,
    ensures
        field_value(seq![b], i, j) >= t <==> dist2(b, i, j) < ((UNIT * UNIT) / t + 1) * ((UNIT * UNIT)
            / t + 1),
{
    lemma_single_blob_peak(b, i, j, i, j);
    let d2 = dist2(b, i, j);
    let dx = j * UNIT - b.coord.x;
    let dy = i * UNIT - b.coord.y;
    assert(0 <= dx * dx + dy * dy) by (nonlinear_arith);
    lemma_root_of(d2);
    let r = root(d2);
    let m = (UNIT * UNIT) / t;
    assert(1000 <= m) by (nonlinear_arith)
        requires m == (1000000int) / t, 0 < t <= 1000;
    if r <= 0 {
        assert(d2 < 1) by (nonlinear_arith)
            requires r == 0, d2 < (r + 1) * (r + 1);
        assert(1 <= (m + 1) * (m + 1)) by (nonlinear_arith)
            requires 1000 <= m;
    } else {
        assert((UNIT * UNIT) / r >= t <==> t * r <= UNIT * UNIT) by (nonlinear_arith)
            requires 0 < r, 0 < t;
        assert(t * r <= UNIT * UNIT <==> r <= m) by (nonlinear_arith)
            requires 0 < r, 0 < t, m == (1000000int) / t;
        if r <= m {
            assert((r + 1) * (r + 1) <= (m + 1) * (m + 1)) by (nonlinear_arith)
                requires 0 < r <= m;
        } else {
            assert((m + 1) * (m + 1) <= r * r) by (nonlinear_arith)
                requires 0 <= m, m + 1 <= r;
        }
    }
}

/// With no blobs every cell has value zero, and without a background every
/// such cell is blank.
pub proof fn lemma_empty_set_is_blank(i: int, j: int, row: int, height: int, params: Params)
    requires
        params.wf(),
        !params.background_enable,
    ensures
        field_value(Seq::<Blob>::empty(), i, j) == 0,
        shade_spec(field_value(Seq::<Blob>::empty(), i, j), row, height, params) == Shade::Blank,
{
}

} // verus!
