//! Verified core of a Weighted Histogram Analysis Method (WHAM) solver.
//!
//! WHAM combines the histograms of several biased simulation windows into one
//! unbiased probability distribution. This crate holds the parts of such a
//! solver that are decided over integers, and proves them:
//!
//! * [`grid`]: the row-major mapping between a flattened bin index and the
//!   per-dimension bin indices, which every consumer of a dataset shares;
//! * [`shape`]: the consistency rules a dataset has to meet before the first
//!   iteration, and the order in which violations are reported;
//! * [`driver`]: the state machine that drives the iteration: the iteration
//!   budget, the cadence of convergence checks, and the way a run ends.
//!
//! The numerical kernels (bias weights, the two WHAM equations, the free
//! energy) work on IEEE floating point and are left to the caller, who feeds
//! what it observed into the driver as plain values.

pub mod error;
pub mod driver;
pub mod grid;
pub mod shape;
