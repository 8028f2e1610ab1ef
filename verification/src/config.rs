//! What the user asks of a run.

use crate::pattern::GlobPattern;
use regex::Regex;
use vstd::prelude::*;

verus! {

/// Test filter, applied identically to the baseline and to every mutant run so that they
/// exercise the same test set.
pub struct FilterArgs {
    /// `--match-test`
    pub test_pattern: Option<Regex>,
    /// `--no-match-test`
    pub test_pattern_inverse: Option<Regex>,
    /// `--match-contract`
    pub contract_pattern: Option<Regex>,
    /// `--no-match-contract`
    pub contract_pattern_inverse: Option<Regex>,
    /// `--match-path`
    pub path_pattern: Option<GlobPattern>,
    /// `--no-match-path`
    pub path_pattern_inverse: Option<GlobPattern>,
}

/// Configuration for a mutation testing run.
pub struct MutationRunConfig {
    /// Paths to mutate, as given (if empty, use all source files).
    pub mutate_paths: Vec<String>,
    /// Optional glob pattern to filter paths.
    pub mutate_path_pattern: Option<GlobPattern>,
    /// Optional contract regex pattern to filter contracts.
    pub mutate_contract_pattern: Option<Regex>,
    /// Number of parallel workers (0 = auto-detect).
    pub num_workers: usize,
    /// Whether to show progress display.
    pub show_progress: bool,
    /// Whether to output JSON (suppress all other output).
    pub json_output: bool,
    /// Test filter for the baseline and every mutant run.
    pub filter_args: FilterArgs,
    /// EVM isolation flag.
    pub isolate: bool,
}

/// The number of workers that a run starts when `requested` were asked for and the machine
/// offers `available`, where that could be found out.
pub open spec fn worker_count(requested: usize, available: Option<usize>) -> usize {
    if requested != 0 {
        requested
    } else {
        match available {
            Some(count) => count,
            None => 1,
        }
    }
}

impl MutationRunConfig {
    /// Determine number of workers, using what the machine offers if 0 were requested.
    ///
    /// `available` is the parallelism that the machine reports, or `None` if it reports none.
    pub fn effective_workers(&self, available: Option<usize>) -> (workers: usize)
        ensures
            workers == worker_count(self.num_workers, available),
            available != Some(0usize) ==> workers > 0,
    {
        if self.num_workers == 0 {
            match available {
                Some(count) => count,
                None => 1,
            }
        } else {
            self.num_workers
        }
    }
}

/// As many workers are started as were asked for; where none were, as many as the machine offers,
/// and one where that could not be found out.
pub proof fn law_workers_are_those_asked_for(requested: usize, available: Option<usize>)
    ensures
        requested > 0 ==> worker_count(requested, available) == requested,
        requested == 0 ==> (available matches Some(offered) ==> worker_count(
            requested,
            available,
        ) == offered),
        requested == 0 && available is None ==> worker_count(requested, available) == 1,
{
}

} // verus!
