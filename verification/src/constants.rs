//! Governing constants of the search engine.

use vstd::prelude::*;

verus! {

/// Most files examined within a single directory pass; entries beyond this
/// ceiling are not processed.
pub const MAX_FILES_PER_DIR: usize = 300;

/// Most file results retained from a single directory; the rest are dropped
/// without raising `curtailed`.
pub const MAX_RESULTS_PER_DIR: usize = 20;

/// Cap on the total number of file results; reaching it curtails the search.
pub const MAX_TOTAL_RESULTS: usize = 300;

/// Number of pending results that forces a batch flush to the observer.
pub const BATCH_SIZE: usize = 50;

/// Milliseconds between progress emissions.
pub const PROGRESS_UPDATE_INTERVAL_MS: u64 = 250;

/// Milliseconds between early-result emissions.
pub const EARLY_RESULTS_INTERVAL_MS: u64 = 500;

/// Largest file size, in bytes, that is still searched.
pub const MAX_FILE_SIZE: u64 = 10 * 1024 * 1024;

} // verus!
