//! Low-cost performance percentile histogram with 64 power-of-two buckets.

pub mod buckets;
pub mod histogram;
pub mod percentile;
pub mod history;
pub mod debug_text;

pub use histogram::{Histogram, HistogramView};
