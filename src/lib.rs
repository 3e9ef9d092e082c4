//! Running statistics over a stream of non-negative integers: exact maximum,
//! minimum, mean and count over the whole stream, and quantile estimates
//! drawn from a bounded sample of retained values.

pub mod model;
pub mod stats;

pub use model::Ratio;
pub use stats::AggregatedStats;
