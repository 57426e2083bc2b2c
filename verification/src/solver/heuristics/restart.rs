//! Restart policies: predicates over the most recent search attempt's
//! statistics that decide whether to start over.

use vstd::prelude::*;

use crate::solver::engine::SearchStats;

verus! {

/// A strategy that decides when to restart the search.
pub trait RestartPolicy: Sized {
    /// What `should_restart` returns.
    spec fn should_restart_spec(&self, stats: SearchStats) -> bool;

    /// Given the statistics of the most recent attempt, decides
    /// whether to restart.
    fn should_restart(&self, stats: &SearchStats) -> (r: bool)
        ensures
            r == self.should_restart_spec(*stats),
    ;
}

/// A policy that never triggers a restart.
pub struct NoRestartPolicy;

impl RestartPolicy for NoRestartPolicy {
    open spec fn should_restart_spec(&self, stats: SearchStats) -> bool {
        false
    }

    fn should_restart(&self, stats: &SearchStats) -> (r: bool) {
        false
    }
}

/// A policy that restarts once an attempt has taken at least the given
/// number of backtracks.
pub struct RestartAfterNBacktracks {
    /// The backtrack count that triggers a restart.
    pub max_backtracks: u64,
}

impl RestartPolicy for RestartAfterNBacktracks {
    open spec fn should_restart_spec(&self, stats: SearchStats) -> bool {
        stats.backtracks >= self.max_backtracks
    }

    fn should_restart(&self, stats: &SearchStats) -> (r: bool) {
        stats.backtracks >= self.max_backtracks
    }
}

} // verus!
