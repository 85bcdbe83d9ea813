use vstd::prelude::*;
use crate::arith::UNIT;

verus! {

/// An 8-bit RGB colour.
#[derive(Clone, Copy, Debug, PartialEq, Eq, Structural)]
pub struct Rgb {
    pub r: u8,
    pub g: u8,
    pub b: u8,
}

/// Run configuration. Speeds are in thousandths of a cell per tick; the
/// jitter, density and threshold are fractions scaled by `UNIT`.
#[derive(Clone, Copy, Debug)]
pub struct Params {
    /// Scale of initial velocities and of the vertical drift.
    pub velocity: u32,
    /// Jitter fraction applied to each tick's displacement.
    pub fluct: u32,
    /// Colour of full influence.
    pub color: Rgb,
    /// Whether cells below the threshold get a background tint.
    pub background_enable: bool,
    /// Whether the driver picks a new colour every few frames.
    pub epilepsy: bool,
    /// Viewport area per cubed blob.
    pub density: u32,
    /// Field value from which a cell counts as inside a blob.
    pub threshold: u32,
}

impl Params {
    pub open spec fn wf(&self) -> bool {
        &&& self.fluct < UNIT
        &&& 0 < self.density
        &&& 0 < self.threshold <= UNIT
    }

    /// Tests the conditions of `wf`.
    pub fn is_valid(&self) -> (r: bool)
        ensures
            r == self.wf(),
    {
        (self.fluct as i64) < UNIT && 0 < self.density && 0 < self.threshold
            && (self.threshold as i64) <= UNIT
    }
}

impl Default for Params {
    fn default() -> (r: Params)
        ensures
            r.velocity == 5500,
            r.fluct == 200,
            r.color == (Rgb { r: 255, g: 255, b: 255 }),
            r.background_enable,
            r.epilepsy,
            r.density == 1350,
            r.threshold == 800,
            r.wf(),
    {
        Params {
            velocity: 5500,
            fluct: 200,
            color: Rgb { r: 255, g: 255, b: 255 },
            background_enable: true,
            epilepsy: true,
            density: 1350,
            threshold: 800,
        }
    }
}

} // verus!
