//! A rules-based trading engine: geometric price-zone search, order-ladder
//! construction with position sizing, running-average aggregation, and
//! Fibonacci retracement utilities.
//!
//! All prices, quantities and rates are exact decimal fixed-point values
//! ([`fixed::Fp`]); rounding to a display precision is true decimal rounding,
//! half away from zero, which the zone comparisons downstream depend on.

pub mod fixed;
pub mod game;
pub mod shared;
pub mod sorting;
pub mod trade_signal;
pub mod utils;

pub use fixed::Fp;
