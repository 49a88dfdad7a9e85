//! Encoding of metrics into the line-oriented StatsD / DogStatsD wire frame.

mod buffer;
pub mod decimal;
pub mod laws;
pub mod metric;
pub mod tag;

pub use metric::Metric;
pub use tag::Tag;
