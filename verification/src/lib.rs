//! Verified core of a color-filtering pipeline: a fixed-point HSV converter,
//! an HSV similarity scorer, a match-mask generator, and a feature locator
//! that finds a narrow neck in a square match mask.
//!
//! Hue is carried in thousandths of a degree (`0..360_000`); saturation,
//! value and similarity scores are carried in thousandths of a unit
//! (`0..=1000`), so every stage is exact integer arithmetic.

pub mod color;
pub mod laws;
pub mod locate;
pub mod mask;
pub mod math;
pub mod timing;
