//! Pitch estimation with the YIN method on fixed-point samples.
//!
//! Every stage works in exact integer arithmetic: the difference function
//! sums squared sample differences in `u128`, and the cumulative mean
//! normalized values are kept as exact fractions.

pub mod ratio;
pub mod stages;
pub mod estimator;
