//! A metaball field simulation in fixed-point arithmetic.
//!
//! Positions, velocities, fractions and field values are integers scaled by
//! [`UNIT`]: a position of `1500` is one and a half cells, a fraction of `800`
//! is 0.8. Blobs drift upward with a buoyancy that fades towards the top of
//! the viewport, may enter a falling mode that pulls them down, bounce off
//! the viewport edges, and together produce an inverse-distance field that
//! is shaded cell by cell. Rows count from the bottom; a positive vertical
//! velocity moves a blob up, and falling mode moves it down.

pub mod arith;
pub mod blob;
pub mod color;
pub mod field;
pub mod params;
pub mod physics;
mod random;

pub use arith::{linear_interpolation, UNIT};
pub use blob::{blob_count, blob_from_draws, gen_blobs, Blob, SpawnDraws, Vector2};
pub use color::{background_tint, gen_color, palette_from_draws, scale_color, shade_cell, Shade};
pub use field::{cell_value, field_grid, isqrt, metaballise, Grid};
pub use params::{Params, Rgb};
pub use physics::{step_blob, transform, TickDraws};
