//! Light-curve feature evaluation over fixed-point samples.
//!
//! The crate computes statistical features of astronomical light curves:
//! irregularly sampled sequences of (time, magnitude, optional weight)
//! observations.  All samples are fixed-point numbers held as `i64` ticks in
//! a caller-chosen common scale; feature outputs are fixed-point numbers with
//! [`OUTPUT_SHIFT`] fractional bits.  Working in integer ticks keeps every
//! intermediate sum exact, so the normal-equation determinant of the linear
//! fit never suffers catastrophic cancellation, and every numeric claim in
//! the contracts is exact rather than approximate.

pub mod arith;
pub mod obs;
pub mod sums;
pub mod evaluator;
pub mod fit;
pub mod laws;
pub mod linear_trend;
pub mod time_series;

pub use arith::{OUTPUT_SCALE, OUTPUT_SHIFT};
pub use evaluator::{
    check_ts_length, Column, DegenerateReason, EvaluatorError, EvaluatorInfo, FeatureEvaluator,
};
pub use fit::{fit_straight_line, FitResult};
pub use linear_trend::LinearTrend;
pub use obs::Obs;
pub use time_series::TimeSeries;
