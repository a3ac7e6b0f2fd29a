//! The incremental strategy: each run sends the delta from the previous
//! run's snapshot, until a trigger resets the chain with a full send.

use crate::strategy::Cleanup;
use vstd::prelude::*;

verus! {

/// Send deltas, re-baselining after a configured number of runs or after
/// a configured time (in seconds) since the last reset.
#[derive(Debug)]
pub struct Incremental {
    pub zpool: String,
    pub filter: String,
    pub runs_before_reset: Option<i64>,
    pub duration_before_reset: Option<u64>,
    pub cleanup: Option<Cleanup>,
}

impl Incremental {
    /// Whether the chain must be reset, given the stored reset counter
    /// `last` (runs since the last reset and its timestamp) and the
    /// current time: on the very first run, once the configured number of
    /// runs is reached, or once the configured duration has passed
    /// (`now - reset_at >= duration`, inclusive).
    pub open spec fn spec_needs_reset(&self, last: Option<(i64, u64)>, now: u64) -> bool {
        match last {
            Option::None => true,
            Option::Some((count, reset_at)) => {
                ||| match self.runs_before_reset {
                    Option::Some(t) => count >= t,
                    Option::None => false,
                }
                ||| match self.duration_before_reset {
                    Option::Some(t) => now as int - reset_at as int >= t as int,
                    Option::None => false,
                }
            },
        }
    }

    /// Decide whether this run re-baselines the chain.
    pub fn check_if_needs_reset(&self, last: Option<(i64, u64)>, now: u64) -> (r: bool)
        ensures
            r == self.spec_needs_reset(last, now),
    {
        let (count, last_reset_date) = match last {
            Option::None => { return true },
            Option::Some(pair) => pair,
        };
        match self.runs_before_reset {
            Option::Some(t) if count >= t => {
                return true;
            },
            _ => {},
        }
        match self.duration_before_reset {
            Option::Some(t) if now >= last_reset_date && now - last_reset_date >= t => {
                return true;
            },
            _ => {},
        }
        false
    }

    /// An incremental strategy with the given triggers and an empty pool
    /// and filter.
    pub fn new(runs_before_reset: Option<i64>, duration_before_reset: Option<u64>) -> (r: Self)
        ensures
            r.zpool@ == Seq::<char>::empty(),
            r.filter@ == Seq::<char>::empty(),
            r.runs_before_reset == runs_before_reset,
            r.duration_before_reset == duration_before_reset,
            r.cleanup is None,
    {
        Incremental {
            zpool: String::new(),
            filter: String::new(),
            runs_before_reset,
            duration_before_reset,
            cleanup: Option::None,
        }
    }
}

} // verus!
