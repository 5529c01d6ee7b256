//! Core of a terminal-resident system monitor: it turns cumulative kernel
//! CPU counters into per-interval deltas and utilization ratios, and keeps a
//! bounded history window of those ratios for a trend display.
//!
//! The library is deliberately free of I/O: callers hand it the raw counter
//! text (as bytes) and receive validated snapshots, deltas and ratios back.
//! Reading the counter files, scheduling refresh ticks and rendering belong
//! to the surrounding program.

pub mod cpuinfo;
pub mod error;
pub mod graph;
pub mod meminfo;
pub mod parse;
pub mod printutils;
pub mod ratio;
pub mod settings;
