//! A library for cleaning build artifacts across many packages at once: it
//! selects manifest files out of a directory walk, has an external cleanup
//! command run once per manifest, parses each invocation's diagnostic text
//! into a delta of files and bytes removed, and folds all deltas into one
//! summary. Partial failures never abort a run.

pub mod cli;
pub mod fold;
pub mod output;
pub mod results;
pub mod traverse;

pub use output::CleanOutput;
pub use results::process_results;
pub use results::FileResult;
pub use results::Summary;

use vstd::prelude::*;

verus! {

/// Settles the raw configuration values into one `Args`: a missing
/// directory falls back to the current one, a missing verbosity to `Info`;
/// everything else is taken as given.
pub fn parse_args(
    dir: Option<String>,
    log: Option<cli::Level>,
    timings: bool,
    skip_processing: bool,
    max_depth: Option<usize>,
) -> (a: cli::Args)
    ensures
        a.dir@ == match dir {
            Some(d) => d@,
            None => "."@,
        },
        a.log == match log {
            Some(l) => l,
            None => cli::Level::Info,
        },
        a.timings == timings,
        a.skip_processing == skip_processing,
        a.max_depth == max_depth,
{
    let dir_val: String = match dir {
        Some(d) => d,
        None => ".".to_owned(),
    };
    let log_val: cli::Level = match log {
        Some(l) => l,
        None => cli::Level::Info,
    };
    cli::Args {
        dir: dir_val,
        log: log_val,
        timings,
        skip_processing,
        max_depth,
    }
}

} // verus!
