//! Configuration handed to the monitor by whatever parses the command line.
//!
//! The core does not own any flag parsing; it only defines the settings
//! record so that the driving program and the renderer agree on its shape.

use vstd::prelude::*;

verus! {

/// How the dashboard is laid out.
#[derive(Clone, Copy, Debug, PartialEq, Eq, Structural)]
pub enum Mode {
    /// Full dashboard with per-core bars and the trend graph.
    Normal,
    /// One line per tick, suitable for appending to a log.
    Log,
    /// Like the full dashboard but sized for small windows.
    Small,
}

/// Options chosen when the monitor was started.
#[derive(Clone, Copy, Debug, PartialEq, Eq, Structural)]
pub struct Settings {
    /// Milliseconds to wait between two refresh ticks.
    pub delay: usize,
    /// Whether output may use colors and text attributes.
    pub enable_color: bool,
    /// Whether the trend graph is drawn in normal mode.
    pub enable_graph: bool,
    /// The display layout.
    pub mode: Mode,
}

} // verus!
