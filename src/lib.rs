//! Per-location weather time series: a store of fixed-point measurements,
//! summaries, anomaly detection, gap interpolation, CSV export, and the
//! integer side of a regression engine (input checks and fold plans).

pub mod analysis;
pub mod arith;
pub mod csv;
pub mod interpolate;
pub mod oracle;
pub mod point;
pub mod prediction;
pub mod stats;
pub mod store;
pub mod wide;
