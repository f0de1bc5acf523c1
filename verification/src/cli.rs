//! The run configuration: the archive to read and the declared parallelism
//! settings. The thread count and batch size are accepted for forward
//! compatibility; the pipeline as implemented is strictly sequential and
//! reads neither.

use vstd::prelude::*;

verus! {

/// What a run of the splitter is given.
#[derive(Debug)]
pub struct Args {
    /// Path of the PGN archive to read.
    pub pgn: String,
    /// Declared thread count; unused by the sequential pipeline.
    pub n_threads: usize,
    /// Declared records-per-thread batch size; unused by the sequential
    /// pipeline.
    pub batch_size: usize,
}

impl Args {
    /// Arguments for the given archive with the default thread count and
    /// batch size.
    pub fn new(pgn: String) -> (a: Args)
        ensures
            a.pgn@ == pgn@,
            a.n_threads == 1,
            a.batch_size == 100,
    {
        Args { pgn, n_threads: 1, batch_size: 100 }
    }
}

} // verus!
