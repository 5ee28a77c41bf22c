//! Ledger aggregation and extraction engine for personal finance records.
//!
//! Monetary values are integer cents and calendar dates are plain
//! year/month/day triples, so every aggregate is exact.
pub mod compatibility;
pub mod date;
pub mod laws;
pub mod model;
pub mod names;
pub mod plots;
pub mod ranking;
pub mod sums;
