//! Descriptive statistics over a daily closing-price series.
//!
//! Prices are fixed-point integers: the caller picks a scale (say, cents)
//! and hands in an ordered series, oldest first. The engine computes the
//! minimum, the maximum, a trailing simple moving average, and the price
//! difference over the whole series. Averages and relative changes are
//! exact fractions, so every result is pinned down by its contract.

pub mod frac;
pub mod stats;

pub use frac::Frac;
pub use stats::{max, min, n_window_sma, price_diff};
