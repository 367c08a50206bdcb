//! The configuration surface the library is driven by. Reading the command
//! line and the environment happens outside; the values arrive here as
//! plain options and are settled into one configuration with the
//! documented defaults.

use vstd::prelude::*;

verus! {

/// Verbosity of the run's diagnostics.
#[derive(Clone, Copy, Debug, PartialEq, Eq, Structural)]
pub enum Level {
    Error,
    Warn,
    Info,
    Debug,
    Trace,
}

/// The settled configuration of one run.
#[derive(Debug)]
pub struct Args {
    /// The directory to start cleaning in.
    pub dir: String,
    /// Verbosity of diagnostics.
    pub log: Level,
    /// Whether to report timing data.
    pub timings: bool,
    /// Whether to skip collecting and summing the reported metrics.
    pub skip_processing: bool,
    /// Maximum depth for cleaning recursively; absent means unbounded.
    pub max_depth: Option<usize>,
}

} // verus!
