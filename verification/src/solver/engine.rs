//! The engine façade and search statistics.

use vstd::prelude::*;

use crate::error::Error;
use crate::solver::constraint::Constraint;
use crate::solver::solution::Solution;
use crate::solver::value::StandardValue;
use crate::solver::strategy::{
    arc_stable, problem_wf, propagate, solving_refinement, SearchStrategy,
};

verus! {

#[verifier::external_type_specification]
#[verifier::external_body]
pub struct ExInstant(std::time::Instant);

/// Identifies a variable within one problem. Stable for the lifetime
/// of a solution; no meaning beyond identity.
pub type VariableId = u32;

/// The index of a constraint within the constraint list of one solve.
pub type ConstraintId = usize;

/// Counters for one constraint across one search.
#[derive(Debug, Clone, Copy)]
pub struct PerConstraintStats {
    /// How many times the constraint's revision procedure ran.
    pub revisions: u64,
    /// How many of those revisions pruned a domain.
    pub prunings: u64,
    /// Total time spent in the constraint's revisions, in
    /// microseconds.
    pub time_spent_micros: u64,
}

impl Default for PerConstraintStats {
    /// All counters start at zero.
    fn default() -> (r: Self)
        ensures
            r.revisions == 0,
            r.prunings == 0,
            r.time_spent_micros == 0,
    {
        PerConstraintStats { revisions: 0, prunings: 0, time_spent_micros: 0 }
    }
}

/// Counters for one search: nodes visited, backtracks taken, and
/// per-constraint records indexed by constraint id.
#[derive(Debug)]
pub struct SearchStats {
    /// How many search nodes were visited.
    pub nodes_visited: u64,
    /// How many backtracks were taken.
    pub backtracks: u64,
    /// Per-constraint counters, indexed by `ConstraintId`.
    pub constraint_stats: Vec<PerConstraintStats>,
}

impl Default for SearchStats {
    /// All counters start at zero, with no per-constraint records.
    fn default() -> (r: Self)
        ensures
            r.nodes_visited == 0,
            r.backtracks == 0,
            r.constraint_stats@.len() == 0,
    {
        SearchStats { nodes_visited: 0, backtracks: 0, constraint_stats: Vec::new() }
    }
}

/// Saturating addition of two counters.
pub open spec fn sat_add_spec(x: u64, y: u64) -> u64 {
    if x + y <= u64::MAX {
        (x + y) as u64
    } else {
        u64::MAX
    }
}

/// Adds two counters, saturating instead of overflowing.
pub(crate) fn sat_add(x: u64, y: u64) -> (r: u64)
    ensures
        r == sat_add_spec(x, y),
{
    if x <= u64::MAX - y {
        x + y
    } else {
        u64::MAX
    }
}

/// Adds one to a counter, saturating instead of overflowing.
pub(crate) fn sat_inc(x: u64) -> (r: u64)
    ensures
        r == if x < u64::MAX {
            (x + 1) as u64
        } else {
            x
        },
{
    if x < u64::MAX {
        x + 1
    } else {
        x
    }
}

/// Relies on std::time::Instant::now: a point in time. Its value
/// depends on the clock, so nothing is stated of it.
#[verifier::external_body]
pub(crate) fn instant_now() -> std::time::Instant {
    std::time::Instant::now()
}

/// Relies on std::time::Instant::elapsed: the time since the point was
/// taken, in microseconds. The value depends on the clock, so nothing
/// is stated of it.
#[verifier::external_body]
pub(crate) fn elapsed_micros_since(start: &std::time::Instant) -> u64 {
    start.elapsed().as_micros() as u64
}

/// The main engine for solving constraint satisfaction problems: a
/// thin wrapper owning one search strategy and delegating `solve` to
/// it.
pub struct SolverEngine<St> {
    /// The strategy that drives the solve.
    pub strategy: St,
}

impl<St> SolverEngine<St> {
    /// Creates a new engine with the given search strategy.
    pub fn new(strategy: St) -> (r: Self)
        ensures
            r.strategy == strategy,
    {
        SolverEngine { strategy }
    }

    /// Attempts to solve the given constraint satisfaction problem.
    ///
    /// Returns `Ok((Some(solution), stats))` when a solution is found
    /// — arc-consistent, refining the initial domains, and a complete
    /// assignment whenever the strategy claims completeness —
    /// `Ok((None, stats))` when the problem is proven unsolvable: no
    /// solving refinement of the initial domains exists. `Err` reports
    /// a programming error during revision, on a reached refinement of
    /// the domains.
    pub fn solve<C: Constraint>(
        &self,
        constraints: &Vec<C>,
        initial_solution: Solution,
    ) -> (r: Result<(Option<Solution>, SearchStats), Error>) where St: SearchStrategy<C>
        requires
            problem_wf(constraints@, initial_solution),
        ensures
            match r {
                Result::Ok((outcome, st)) => {
                    &&& match outcome {
                        Option::Some(s) => {
                            &&& s.wf()
                            &&& s.doms().dom() == initial_solution.doms().dom()
                            &&& s.meta() == initial_solution.meta()
                            &&& forall|v: VariableId| #[trigger]
                                s.doms().dom().contains(v) ==> s.doms()[v].subset_of(
                                    initial_solution.doms()[v],
                                )
                            &&& arc_stable(constraints@, s)
                            &&& self.strategy.claims_complete() ==> s.complete()
                        },
                        Option::None => forall|w: Map<VariableId, Set<StandardValue>>|
                            #![trigger solving_refinement(
                                constraints@,
                                w,
                                initial_solution.doms(),
                            )]
                            !solving_refinement(constraints@, w, initial_solution.doms()),
                    }
                    &&& self.strategy.claims_search_free() ==> st.nodes_visited == 0
                        && st.backtracks == 0
                },
                Result::Err(_) => exists|
                    d: Map<VariableId, Set<StandardValue>>,
                    i: int,
                    v: VariableId,
                |
                    {
                        &&& d.dom() == initial_solution.doms().dom()
                        &&& forall|u: VariableId| #[trigger]
                            d.dom().contains(u) ==> d[u].subset_of(initial_solution.doms()[u])
                        &&& 0 <= i < constraints@.len()
                        &&& constraints@[i].vars_spec().contains(v)
                        &&& #[trigger] constraints@[i].revise_err(v, d)
                    },
            },
    {
        self.strategy.solve(constraints, initial_solution)
    }

    /// Establishes arc consistency using the AC-3 algorithm, without
    /// searching.
    ///
    /// The contract mirrors the propagation engine's: an
    /// arc-consistent refinement comes back (unchanged when the start
    /// was already arc-consistent, and never discarding a solving
    /// refinement); `Ok(None)` proves that no solving refinement
    /// exists and names a wiped-out arc; `Err` names an arc whose
    /// revision errs on a reached refinement.
    pub fn arc_consistency<C: Constraint>(
        &self,
        constraints: &Vec<C>,
        initial_solution: Solution,
        stats: &mut SearchStats,
    ) -> (r: Result<Option<Solution>, Error>)
        requires
            problem_wf(constraints@, initial_solution),
        ensures
            match r {
                Result::Ok(Option::Some(s)) => {
                    &&& s.wf()
                    &&& s.doms().dom() == initial_solution.doms().dom()
                    &&& s.meta() == initial_solution.meta()
                    &&& forall|v: VariableId| #[trigger]
                        s.doms().dom().contains(v) ==> s.doms()[v].subset_of(
                            initial_solution.doms()[v],
                        )
                    &&& forall|v: VariableId| #[trigger]
                        s.doms().dom().contains(v) && s.doms()[v].len() == 0
                            ==> initial_solution.doms()[v].len() == 0
                    &&& arc_stable(constraints@, s)
                    &&& arc_stable(constraints@, initial_solution) ==> s == initial_solution
                    &&& forall|w: Map<VariableId, Set<StandardValue>>|
                        #![trigger solving_refinement(constraints@, w, initial_solution.doms())]
                        solving_refinement(constraints@, w, initial_solution.doms())
                            ==> forall|v: VariableId| #[trigger]
                            w.dom().contains(v) ==> w[v].subset_of(s.doms()[v])
                },
                Result::Ok(Option::None) => {
                    &&& !arc_stable(constraints@, initial_solution)
                    &&& forall|w: Map<VariableId, Set<StandardValue>>|
                        #![trigger solving_refinement(constraints@, w, initial_solution.doms())]
                        !solving_refinement(constraints@, w, initial_solution.doms())
                    &&& exists|d: Map<VariableId, Set<StandardValue>>, i: int, v: VariableId|
                        {
                            &&& d.dom() == initial_solution.doms().dom()
                            &&& forall|u: VariableId| #[trigger]
                                d.dom().contains(u) ==> d[u].subset_of(
                                    initial_solution.doms()[u],
                                )
                            &&& 0 <= i < constraints@.len()
                            &&& constraints@[i].vars_spec().contains(v)
                            &&& d[v].intersect(
                                #[trigger] constraints@[i].keep_set(v, d),
                            ).len() == 0
                            &&& d[v].len() != 0
                        }
                },
                Result::Err(_) => {
                    &&& !arc_stable(constraints@, initial_solution)
                    &&& exists|d: Map<VariableId, Set<StandardValue>>, i: int, v: VariableId|
                        {
                            &&& d.dom() == initial_solution.doms().dom()
                            &&& forall|u: VariableId| #[trigger]
                                d.dom().contains(u) ==> d[u].subset_of(
                                    initial_solution.doms()[u],
                                )
                            &&& 0 <= i < constraints@.len()
                            &&& constraints@[i].vars_spec().contains(v)
                            &&& #[trigger] constraints@[i].revise_err(v, d)
                        }
                },
            },
        final(stats).nodes_visited == old(stats).nodes_visited,
        final(stats).backtracks == old(stats).backtracks,
    {
        propagate(constraints, initial_solution, stats)
    }
}

} // verus!
