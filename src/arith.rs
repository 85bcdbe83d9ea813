use vstd::prelude::*;

verus! {

/// Fixed-point scale: one cell, or the fraction 1.0.
pub const UNIT: i64 = 1000;

/// Floor division by a positive divisor.
pub fn floor_div(a: i128, b: i128) -> (r: i128)
    requires
        b > 0,
    ensures
        r == a / b,
        a >= 0 ==> 0 <= r <= a,
        a < 0 ==> a <= r < 0,
{
    if a >= 0 {
        let q = a / b;
        assert(q <= a) by (nonlinear_arith)
            requires q == (a as int) / (b as int), a >= 0, b > 0;
        q
    } else {
        let q = (-(a + 1)) / b;
        let r = -q - 1;
        assert(r == (a as int) / (b as int) && a <= r) by (nonlinear_arith)
            requires q == (-(a as int) - 1) / (b as int), a < 0, b > 0, r == -q - 1;
        r
    }
}

/// Division rounded toward zero, by a positive divisor.
pub open spec fn trunc_spec(a: int, b: int) -> int {
    if a >= 0 {
        a / b
    } else {
        -((-a) / b)
    }
}

/// Division by a positive divisor, rounded toward zero.
pub fn trunc_div(a: i128, b: i128) -> (r: i128)
    requires
        b > 0,
        a > i128::MIN,
    ensures
        r == trunc_spec(a as int, b as int),
        a >= 0 ==> 0 <= r <= a,
        a < 0 ==> a <= r <= 0,
{
    if a >= 0 {
        floor_div(a, b)
    } else {
        -floor_div(-a, b)
    }
}

/// The height factor of a coordinate `j` within an extent `y`: just below
/// one at `j == 0`, falling linearly to zero at `j == y`. The quotient is
/// rounded up, so that no height above the bottom gets a larger factor.
pub open spec fn lerp_spec(j: int, y: int) -> int {
    if j == 0 {
        UNIT - 1
    } else {
        UNIT + (-(j * UNIT)) / y
    }
}

/// Height factor of the fixed-point coordinate `j` in an extent of `y`
/// fixed-point units, as a fraction scaled by `UNIT`.
pub fn linear_interpolation(j: i64, y: u64) -> (r: i64)
    requires
        UNIT <= y,
        -0x2000_0000_0000 <= j <= 0x2000_0000_0000,
    ensures
        r == lerp_spec(j as int, y as int),
        0 <= j <= y ==> 0 <= r < UNIT,
        -0x4000_0000_0000 <= r <= 0x4000_0000_0000,
{
    if j == 0 {
        return UNIT - 1;
    }
    assert(-0x8000_0000_0000_0000 <= j * 1000 <= 0x8000_0000_0000_0000) by (nonlinear_arith)
        requires -0x2000_0000_0000 <= j <= 0x2000_0000_0000;
    let q = floor_div(-(j as i128 * UNIT as i128), y as i128);
    proof {
        let a = -(j * UNIT);
        if 0 < j <= y {
            assert(-UNIT <= a / (y as int) < 0) by (nonlinear_arith)
                requires a == -(j * 1000), 0 < j <= y, 1000 <= y;
        }
        assert(-0x2000_0000_0000 <= a / (y as int) <= 0x2000_0000_0000) by (nonlinear_arith)
            requires a == -(j * 1000), 1000 <= y, -0x2000_0000_0000 <= j <= 0x2000_0000_0000;
    }
    UNIT + q as i64
}

/// The height factor never grows with height.
pub proof fn lemma_lerp_monotonic(j1: int, j2: int, y: int)
    requires
        UNIT <= y,
        0 <= j1 <= j2,
    ensures
        lerp_spec(j2, y) <= lerp_spec(j1, y),
{
    if j2 > 0 {
        assert((-(j2 * UNIT)) / y <= -1) by (nonlinear_arith)
            requires 0 < j2, 1000 <= y;
        if j1 > 0 {
            assert((-(j2 * UNIT)) / y <= (-(j1 * UNIT)) / y) by (nonlinear_arith)
                requires 0 < j1 <= j2, 1000 <= y;
        }
    }
}

} // verus!
