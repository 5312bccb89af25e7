//! Minimum separation between rectangular building footprints, singly and
//! across clusters of buildings placed in a shared plane.
//!
//! Every quantity is an exact fixed-point number held in an integer, so that
//! the geometry is free of rounding: lengths are metres in thousandths,
//! angles are degrees in millionths.

pub mod identity;
pub mod model;
pub mod transform;
pub mod distance;
pub mod search;
pub mod parallel;
pub mod offsets;
pub mod normalized;
