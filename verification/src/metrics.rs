//! Counters of one run of the analyzer.

use vstd::prelude::*;

verus! {

/// How many files and functions were analyzed, and how they scored.
#[derive(Debug)]
pub struct Metrics {
    pub total_files: usize,
    pub total_functions: usize,
    pub block_count: usize,
    pub warn_count: usize,
    pub info_count: usize,
    pub pass_count: usize,
}

impl Default for Metrics {
    fn default() -> (r: Self)
        ensures
            r.total_files == 0,
            r.total_functions == 0,
            r.block_count == 0,
            r.warn_count == 0,
            r.info_count == 0,
            r.pass_count == 0,
    {
        Metrics { total_files: 0, total_functions: 0, block_count: 0, warn_count: 0, info_count: 0, pass_count: 0 }
    }
}

} // verus!
