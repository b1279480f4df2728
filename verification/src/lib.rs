//! Statistics lessons on daily market data, computed with exact decimal
//! arithmetic and verified with Verus.

pub mod decimal;
pub mod sort;
pub mod statistics;
pub mod mean;
pub mod median;
pub mod variance;
pub mod std_dev;
pub mod range;
pub mod output;
pub mod lessons;
pub mod data_sources;
