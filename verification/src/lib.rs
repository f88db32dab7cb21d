//! Comparison engine for batches of epidemic-simulation trajectories.
//!
//! Curves (time series of infection counts, one per stochastic run) are
//! grouped into bins by their initial condition.  The engine compares every
//! pair of bins, reducing each pair of curves to a single scalar, and
//! collects the results in a symmetric dissimilarity matrix.
//!
//! Scalar samples travel through this crate as raw IEEE 754 bit patterns
//! (`u64`).  The crate owns everything that decides *which* values are
//! combined and with which weights; the floating-point folds themselves are
//! performed by the caller on the term lists this crate produces.

use vstd::prelude::*;

pub mod analyse;
pub mod curves;
pub mod histogram;
pub mod opts;
pub mod reduce;
pub mod stats;

verus! {

/// Bit pattern of the quiet NaN used as the "pair never computed" sentinel
/// in the mean matrix.
pub const NAN_BITS: u64 = 0x7ff8_0000_0000_0000;

} // verus!
