//! The full-send strategy: every run re-baselines every dataset.

use vstd::prelude::*;

verus! {

/// Send a complete stream for each matched dataset on every run.
#[derive(Debug)]
pub struct Full {
    pub zpool: String,
    pub filter: String,
}

} // verus!
