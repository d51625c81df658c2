//! Escape-time rendering of the Mandelbrot set.
//!
//! - [`decimal`]: arbitrary-precision decimal numbers.
//! - [`types`]: the numeric backends that the kernel can run on, and the
//!   backend of this crate, decimals of one lane.
//! - [`complex`]: the escape-time kernel for one group of lanes.
//! - [`render`]: settings, rows, the row assembler and whole frames.
//!
//! The arithmetic rests on the `bigdecimal` and `num` crates through a few
//! trusted functions in [`decimal`]; all else is verified.
pub mod complex;
pub mod decimal;
pub mod render;
pub mod types;
