//! A self-calibrating micro-benchmarking harness.
//!
//! Timings are kept as integers: raw samples in nanoseconds per batch, and
//! summaries in picoseconds per operation, so that every reduction is exact.
pub mod benchmark;
pub mod calibration;
pub mod clock;
pub mod config;
pub mod convergence;
pub mod csv;
pub mod error;
pub mod measure;
pub mod runner;
pub mod stats;
