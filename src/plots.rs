//! Extraction of report-ready series from a registry.
pub mod extraction;
pub mod monthly;
