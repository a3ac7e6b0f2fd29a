//! Replication strategies: every run sends full streams, or an incremental
//! chain is kept and reset on configured triggers.

use vstd::prelude::*;

pub mod full;
pub mod incremental;

verus! {

/// How snapshots of a task's datasets are replicated.
#[derive(Debug)]
pub enum Strategy {
    Full(full::Full),
    Incremental(incremental::Incremental),
}

/// Retention policy for old artifacts, recognized by the configuration
/// and consumed by the cleanup worker. Ages are in seconds.
#[derive(Debug)]
pub struct Cleanup {
    pub destination_age: Option<u64>,
    pub destination_count: Option<u64>,
    pub local_age: Option<u64>,
    pub local_count: Option<u64>,
    pub replace_with_bookmark: bool,
    pub run_every_time: bool,
}

impl Strategy {
    /// The reset decision before any history is consulted; consulting the
    /// store may still turn it on.
    pub fn needs_reset_default(&self) -> (r: bool)
        ensures
            r == false,
    {
        match self {
            Strategy::Full(_) => false,
            Strategy::Incremental(_) => false,
        }
    }

    /// The pool this strategy draws datasets from.
    pub open spec fn spec_zpool(&self) -> Seq<char> {
        match self {
            Strategy::Full(stg) => stg.zpool@,
            Strategy::Incremental(stg) => stg.zpool@,
        }
    }

    /// The regular expression that selects datasets of the pool.
    pub open spec fn spec_filter(&self) -> Seq<char> {
        match self {
            Strategy::Full(stg) => stg.filter@,
            Strategy::Incremental(stg) => stg.filter@,
        }
    }

    /// The pool and the dataset filter of this strategy.
    pub fn get_zpool_and_filter(&self) -> (r: (String, String))
        ensures
            r.0@ == self.spec_zpool(),
            r.1@ == self.spec_filter(),
    {
        match self {
            Strategy::Full(stg) => (stg.zpool.clone(), stg.filter.clone()),
            Strategy::Incremental(stg) => (stg.zpool.clone(), stg.filter.clone()),
        }
    }
}

} // verus!
