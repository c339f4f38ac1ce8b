//! Aggregation of gridded daily altimetry fields into windowed composites,
//! basin classification of each retained cell, and reshaping into sparse
//! per-location time-series records.
//!
//! All coordinates are fixed-point degrees with three decimal places
//! (millidegrees), and all field values are fixed-point integers at a
//! caller-chosen scale; the fill sentinel and the missing marker are
//! modelled explicitly.

pub mod aggregate;
pub mod assemble;
pub mod basin;
pub mod digits;
pub mod fixed;
pub mod longitude;
pub mod pipeline;
pub mod timeindex;

use vstd::prelude::*;

verus! {

/// Fixed-point units per degree: every coordinate in this crate is an
/// integer count of thousandths of a degree.
pub const COORD_SCALE: i64 = 1000;

} // verus!
