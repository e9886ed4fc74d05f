//! The run's configuration: an immutable job record and the worker-count
//! rule of the Extraction Scheduler.

use vstd::prelude::*;

verus! {

/// One run's configuration, read once at startup and never mutated: where
/// to scan, where to write, which entry suffix to keep ("all" disables
/// filtering), and how many workers to use (0 selects the number of
/// available execution units).
pub struct Job {
    pub source: String,
    pub output: String,
    pub filter: String,
    pub workers: usize,
}

impl Job {
    /// Builds the job record from the configured values.
    pub fn new(source: String, output: String, filter: String, workers: usize) -> (j: Job)
        ensures
            j.source@ == source@,
            j.output@ == output@,
            j.filter@ == filter@,
            j.workers == workers,
    {
        Job { source, output, filter, workers }
    }
}

/// The size of the worker pool: the hint itself, except that the sentinel 0
/// selects the number of available execution units.
pub fn effective_workers(hint: usize, available: usize) -> (r: usize)
    ensures
        r == if hint == 0 {
            available
        } else {
            hint
        },
{
    if hint == 0 {
        available
    } else {
        hint
    }
}

} // verus!
