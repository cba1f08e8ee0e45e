//! Exact randomness statistics of a byte buffer.
//!
//! The analysis takes a buffer and a mode, bytes or bits, and computes the
//! terms of the Shannon entropy, the chi-square statistic against the uniform
//! distribution, the arithmetic mean, a Monte Carlo estimate of pi, the serial
//! correlation and the frequency table. `EntStats::from_data` computes all of
//! them; each has a function of its own as well.
//!
//! Every statistic is computed in integers and handed out as an exact
//! fraction, so that each is stated and proved over the contents of the
//! buffer, for a buffer of any length. Turning a fraction into a decimal
//! number, and the functions that have no exact value (the logarithm of the
//! entropy, the square roots, the error function of the p-value), are left to
//! the caller.

pub mod chisquare;
pub mod correlation;
pub mod entropy;
pub mod frequency;
pub mod mean;
pub mod pi;
pub mod ratio;
pub mod stats;
pub mod sums;
pub mod wide;

pub use correlation::SerialCorrelation;
pub use ratio::Ratio;
pub use stats::EntStats;
pub use wide::{I256, U256};
