//! Search strategies and the AC-3 propagation engine.
//!
//! Propagation repeatedly pops arcs from the priority worklist and
//! revises them until a fixed point is reached. Search strategies
//! combine propagation with backtracking exploration, pluggable with
//! variable- and value-ordering heuristics.

use vstd::prelude::*;

use crate::error::Error;
use crate::solver::constraint::{contains_var, Constraint};
use crate::solver::engine::{
    elapsed_micros_since, instant_now, sat_add, sat_add_spec, sat_inc, PerConstraintStats,
    SearchStats, VariableId,
};
use crate::solver::heuristics::restart::RestartPolicy;
use crate::solver::heuristics::value::ValueOrderingHeuristic;
use crate::solver::heuristics::variable::VariableSelectionHeuristic;
use crate::solver::solution::{singleton_domain, DomainRepresentation, Solution};
use crate::solver::value::StandardValue;
use crate::solver::work_list::WorkList;

verus! {

/// The constraints and the solution fit together: the solution is
/// well-formed, every constraint is well-formed, and every variable a
/// constraint mentions has a domain.
pub open spec fn problem_wf<C: Constraint>(constraints: Seq<C>, sol: Solution) -> bool {
    &&& sol.wf()
    &&& forall|i: int| 0 <= i < constraints.len() ==> (#[trigger] constraints[i]).wf()
    &&& forall|i: int, v: VariableId|
        0 <= i < constraints.len() && #[trigger] constraints[i].vars_spec().contains(v)
            ==> sol.doms().dom().contains(v)
}

/// The solution is arc-consistent: for every constraint and every
/// variable it involves, revision would report "unchanged".
pub open spec fn arc_stable<C: Constraint>(constraints: Seq<C>, sol: Solution) -> bool {
    forall|i: int, v: VariableId|
        0 <= i < constraints.len() && #[trigger] constraints[i].vars_spec().contains(v) ==> {
            &&& !constraints[i].revise_err(v, sol.doms())
            &&& sol.doms()[v].subset_of(constraints[i].keep_set(v, sol.doms()))
        }
}

/// A hypothetical solution of the problem: a complete assignment —
/// one value per variable — drawn from the given base domains, that
/// every constraint's revision leaves unchanged.
pub open spec fn solving_refinement<C: Constraint>(
    constraints: Seq<C>,
    s: Map<VariableId, Set<StandardValue>>,
    base: Map<VariableId, Set<StandardValue>>,
) -> bool {
    &&& s.dom() == base.dom()
    &&& forall|v: VariableId| #[trigger] s.dom().contains(v) ==> s[v].subset_of(base[v])
    &&& forall|v: VariableId| #[trigger]
        s.dom().contains(v) ==> s[v].finite() && s[v].len() == 1
    &&& forall|i: int, v: VariableId|
        0 <= i < constraints.len() && #[trigger] constraints[i].vars_spec().contains(v) ==> {
            &&& !constraints[i].revise_err(v, s)
            &&& s[v].subset_of(constraints[i].keep_set(v, s))
        }
}

/// A pruning never removes a value of a solving refinement: by keep
/// antitonicity, the refinement's pinned value for the target sits in
/// the pruned domain.
proof fn lemma_refinement_respects_prune<C: Constraint>(
    constraints: Seq<C>,
    s: Map<VariableId, Set<StandardValue>>,
    cur: Map<VariableId, Set<StandardValue>>,
    base: Map<VariableId, Set<StandardValue>>,
    cid: int,
    target: VariableId,
)
    requires
        solving_refinement(constraints, s, base),
        0 <= cid < constraints.len(),
        constraints[cid].wf(),
        constraints[cid].vars_spec().contains(target),
        cur.dom() == base.dom(),
        forall|u: VariableId| #![trigger constraints[cid].vars_spec().contains(u)]
            constraints[cid].vars_spec().contains(u) ==> cur.dom().contains(u),
        forall|v: VariableId| #[trigger] s.dom().contains(v) ==> s[v].subset_of(cur[v]),
    ensures
        s[target].subset_of(cur[target].intersect(constraints[cid].keep_set(target, cur))),
{
    let cc = constraints[cid];
    assert forall|u: VariableId| #![trigger cc.vars_spec().contains(u)]
        cc.vars_spec().contains(u) implies cur.dom().contains(u) && s.dom().contains(u) && s[
        u
    ].subset_of(cur[u]) && s[u].finite() && s[u].len() == 1 by {
        assert(s.dom().contains(u));
    }
    cc.lemma_keep_antitone(target, cur, s);
    assert(s[target].subset_of(cc.keep_set(target, s)));
    assert forall|x: StandardValue| s[target].contains(x) implies cur[target].intersect(
        cc.keep_set(target, cur),
    ).contains(x) by {
        assert(cc.keep_set(target, s).contains(x));
        assert(cc.keep_set(target, cur).contains(x));
        assert(s.dom().contains(target));
        assert(cur[target].contains(x));
    }
}

/// The total number of candidate values over the given variables:
/// the termination measure of propagation.
pub open spec fn doms_size(doms: Map<VariableId, Set<StandardValue>>, keys: Set<VariableId>) -> nat
    decreases keys.len() when keys.finite()
{
    if keys.finite() && keys.len() > 0 {
        let k = keys.choose();
        doms[k].len() + doms_size(doms, keys.remove(k))
    } else {
        0
    }
}

/// A nonempty finite set holds its chosen element.
proof fn lemma_choose_member<A>(keys: Set<A>)
    requires
        keys.finite(),
        keys.len() > 0,
    ensures
        keys.contains(keys.choose()),
{
    if !(exists|a: A| keys.contains(a)) {
        assert(keys =~= Set::empty());
    }
}

/// Pointwise no-larger domains give a no-larger total size.
proof fn lemma_doms_size_le(
    d1: Map<VariableId, Set<StandardValue>>,
    d2: Map<VariableId, Set<StandardValue>>,
    keys: Set<VariableId>,
)
    requires
        keys.finite(),
        forall|k: VariableId| #[trigger] keys.contains(k) ==> d2[k].len() <= d1[k].len(),
    ensures
        doms_size(d2, keys) <= doms_size(d1, keys),
    decreases keys.len(),
{
    if keys.len() > 0 {
        lemma_choose_member(keys);
        lemma_doms_size_le(d1, d2, keys.remove(keys.choose()));
    }
}

/// Pointwise no-larger domains with one strictly smaller give a
/// strictly smaller total size.
proof fn lemma_doms_size_lt(
    d1: Map<VariableId, Set<StandardValue>>,
    d2: Map<VariableId, Set<StandardValue>>,
    keys: Set<VariableId>,
    t: VariableId,
)
    requires
        keys.finite(),
        keys.contains(t),
        forall|k: VariableId| #[trigger] keys.contains(k) ==> d2[k].len() <= d1[k].len(),
        d2[t].len() < d1[t].len(),
    ensures
        doms_size(d2, keys) < doms_size(d1, keys),
    decreases keys.len(),
{
    lemma_choose_member(keys);
    let k = keys.choose();
    if k == t {
        lemma_doms_size_le(d1, d2, keys.remove(k));
    } else {
        lemma_doms_size_lt(d1, d2, keys.remove(k), t);
    }
}

/// Establishes arc consistency from a starting solution, AC-3 style.
///
/// Returns `Ok(Some(s))` with an arc-consistent solution whose domains
/// refine the starting ones, `Ok(None)` when a revision wiped a domain
/// out (the problem branch is infeasible), and `Err` when a revision
/// failed on a programming error. Propagation is idempotent: a start
/// that is already arc-consistent comes back unchanged — and only a
/// start that is not arc-consistent can come back `None` or `Err` — so
/// a second pass returns what the first one produced. Propagation is
/// also complete: it never discards a solving refinement of the
/// starting domains, and it answers `None` only when no such
/// refinement exists. A `None` or `Err` outcome further names its
/// cause: some refinement of the starting domains reached during the
/// run on which an arc wipes its target out, or errs. Only the
/// revision counters of the statistics are touched; nodes and
/// backtracks stay as they were.
#[verifier::loop_isolation(false)]
pub fn propagate<C: Constraint>(
    constraints: &Vec<C>,
    initial_solution: Solution,
    stats: &mut SearchStats,
) -> (r: Result<Option<Solution>, Error>)
    requires
        problem_wf(constraints@, initial_solution),
    ensures
        match r {
            Result::Ok(Option::Some(s)) => {
                &&& s.wf()
                &&& s.doms().dom() == initial_solution.doms().dom()
                &&& s.meta() == initial_solution.meta()
                &&& forall|v: VariableId| #[trigger]
                    s.doms().dom().contains(v) ==> s.doms()[v].subset_of(
                        initial_solution.doms()[v],
                    )
                &&& forall|v: VariableId| #[trigger]
                    s.doms().dom().contains(v) && s.doms()[v].len() == 0
                        ==> initial_solution.doms()[v].len() == 0
                &&& arc_stable(constraints@, s)
                &&& arc_stable(constraints@, initial_solution) ==> s == initial_solution
                &&& forall|w: Map<VariableId, Set<StandardValue>>|
                    #![trigger solving_refinement(constraints@, w, initial_solution.doms())]
                    solving_refinement(constraints@, w, initial_solution.doms())
                        ==> forall|v: VariableId| #[trigger]
                        w.dom().contains(v) ==> w[v].subset_of(s.doms()[v])
            },
            Result::Ok(Option::None) => {
                &&& !arc_stable(constraints@, initial_solution)
                &&& forall|w: Map<VariableId, Set<StandardValue>>|
                    #![trigger solving_refinement(constraints@, w, initial_solution.doms())]
                    !solving_refinement(constraints@, w, initial_solution.doms())
                &&& exists|d: Map<VariableId, Set<StandardValue>>, i: int, v: VariableId|
                    {
                        &&& d.dom() == initial_solution.doms().dom()
                        &&& forall|u: VariableId| #[trigger]
                            d.dom().contains(u) ==> d[u].subset_of(initial_solution.doms()[u])
                        &&& 0 <= i < constraints@.len()
                        &&& constraints@[i].vars_spec().contains(v)
                        &&& d[v].intersect(#[trigger] constraints@[i].keep_set(v, d)).len() == 0
                        &&& d[v].len() != 0
                    }
            },
            Result::Err(_) => {
                &&& !arc_stable(constraints@, initial_solution)
                &&& exists|d: Map<VariableId, Set<StandardValue>>, i: int, v: VariableId|
                    {
                        &&& d.dom() == initial_solution.doms().dom()
                        &&& forall|u: VariableId| #[trigger]
                            d.dom().contains(u) ==> d[u].subset_of(initial_solution.doms()[u])
                        &&& 0 <= i < constraints@.len()
                        &&& constraints@[i].vars_spec().contains(v)
                        &&& #[trigger] constraints@[i].revise_err(v, d)
                    }
            },
        },
        final(stats).nodes_visited == old(stats).nodes_visited,
        final(stats).backtracks == old(stats).backtracks,
{
    let mut solution = initial_solution;
    let ghost init_doms = initial_solution.doms();
    proof {
        assert(init_doms.dom() =~= initial_solution.dmap().dom());
        assert(init_doms.dom().finite());
    }

    // Grow the per-constraint records to cover every constraint.
    while stats.constraint_stats.len() < constraints.len()
        invariant
            stats.nodes_visited == old(stats).nodes_visited,
            stats.backtracks == old(stats).backtracks,
        decreases constraints@.len() - stats.constraint_stats@.len(),
    {
        stats.constraint_stats.push(PerConstraintStats::default());
    }

    // Seed the worklist with every arc.
    let mut worklist = WorkList::new();
    let mut ci: usize = 0;
    while ci < constraints.len()
        invariant
            ci <= constraints@.len(),
            forall|p: (VariableId, usize)| #[trigger]
                worklist.pairs().contains(p) ==> p.1 < constraints@.len()
                    && constraints@[p.1 as int].vars_spec().contains(p.0),
            forall|i: int, v: VariableId|
                0 <= i < ci && #[trigger] constraints@[i].vars_spec().contains(v)
                    ==> worklist.pairs().contains((v, i as usize)),
        decreases constraints@.len() - ci,
    {
        let c = &constraints[ci];
        let prio = c.priority();
        let vars = c.variables();
        let mut vi: usize = 0;
        while vi < vars.len()
            invariant
                vi <= vars@.len(),
                ci < constraints@.len(),
                vars@ == constraints@[ci as int].vars_spec(),
                forall|p: (VariableId, usize)| #[trigger]
                    worklist.pairs().contains(p) ==> p.1 < constraints@.len()
                        && constraints@[p.1 as int].vars_spec().contains(p.0),
                forall|i: int, v: VariableId|
                    0 <= i < ci && #[trigger] constraints@[i].vars_spec().contains(v)
                        ==> worklist.pairs().contains((v, i as usize)),
                forall|j: int|
                    0 <= j < vi ==> worklist.pairs().contains((vars@[j], ci as usize)),
            decreases vars@.len() - vi,
        {
            proof {
                assert(vars@.contains(vars@[vi as int]));
            }
            worklist.push_back(prio, vars[vi], ci);
            vi += 1;
        }
        proof {
            assert forall|v: VariableId| #[trigger]
                constraints@[ci as int].vars_spec().contains(v) implies worklist.pairs().contains(
                (v, ci as usize),
            ) by {
                let j = choose|j: int| 0 <= j < vars@.len() && vars@[j] == v;
                assert(worklist.pairs().contains((vars@[j], ci as usize)));
            }
        }
        ci += 1;
    }

    // Main propagation loop.
    loop
        invariant
            problem_wf(constraints@, solution),
            solution.doms().dom() == init_doms.dom(),
            solution.meta() == initial_solution.meta(),
            forall|v: VariableId| #[trigger]
                solution.doms().dom().contains(v) ==> solution.doms()[v].subset_of(init_doms[v]),
            forall|v: VariableId| #[trigger]
                solution.doms().dom().contains(v) && solution.doms()[v].len() == 0
                    ==> init_doms[v].len() == 0,
            forall|p: (VariableId, usize)| #[trigger]
                worklist.pairs().contains(p) ==> p.1 < constraints@.len()
                    && constraints@[p.1 as int].vars_spec().contains(p.0),
            forall|i: int, v: VariableId|
                0 <= i < constraints@.len() && #[trigger] constraints@[i].vars_spec().contains(v)
                    ==> worklist.pairs().contains((v, i as usize)) || {
                    &&& !constraints@[i].revise_err(v, solution.doms())
                    &&& solution.doms()[v].subset_of(
                        constraints@[i].keep_set(v, solution.doms()),
                    )
                },
            stats.constraint_stats@.len() >= constraints@.len(),
            stats.nodes_visited == old(stats).nodes_visited,
            stats.backtracks == old(stats).backtracks,
            arc_stable(constraints@, initial_solution) ==> solution == initial_solution,
            forall|w: Map<VariableId, Set<StandardValue>>|
                #![trigger solving_refinement(constraints@, w, init_doms)]
                solving_refinement(constraints@, w, init_doms) ==> forall|v: VariableId|
                    #[trigger] w.dom().contains(v) ==> w[v].subset_of(solution.doms()[v]),
        decreases doms_size(solution.doms(), init_doms.dom()), worklist.items().len(),
    {
        let ghost pre_wl = worklist;
        let popped = worklist.pop_front();
        match popped {
            None => {
                proof {
                    assert forall|i: int, v: VariableId|
                        0 <= i < constraints@.len() && #[trigger] constraints@[
                            i
                        ].vars_spec().contains(v) implies {
                        &&& !constraints@[i].revise_err(v, solution.doms())
                        &&& solution.doms()[v].subset_of(
                            constraints@[i].keep_set(v, solution.doms()),
                        )
                    } by {
                        assert(!worklist.pairs().contains((v, i as usize)));
                    }
                }
                return Ok(Some(solution));
            },
            Some((target_var, constraint_id)) => {
                let ghost pre_pairs = pre_wl.pairs();
                proof {
                    // The popped arc was queued, so it is valid; every
                    // other queued arc stays queued.
                    let k = choose|k: int|
                        {
                            &&& 0 <= k < pre_wl.items().len()
                            &&& (
                            #[trigger] pre_wl.items()[k].variable_id,
                            pre_wl.items()[k].constraint_id,
                            ) == (target_var, constraint_id)
                            &&& worklist.items() == pre_wl.items().remove(k)
                        };
                    assert(pre_pairs.contains((target_var, constraint_id)));
                    assert(worklist.items().len() < pre_wl.items().len());
                    // Every pair other than the popped one stays queued.
                    assert forall|p: (VariableId, usize)| #[trigger]
                        pre_pairs.contains(p) && p != (target_var, constraint_id)
                        implies worklist.pairs().contains(p) by {
                        let i = choose|i: int|
                            0 <= i < pre_wl.items().len() && (
                            #[trigger] pre_wl.items()[i].variable_id,
                            pre_wl.items()[i].constraint_id,
                            ) == p;
                        if i < k {
                            assert(worklist.items()[i] == pre_wl.items()[i]);
                            assert((worklist.items()[i].variable_id,
                                worklist.items()[i].constraint_id) == p);
                        } else {
                            assert(i != k);
                            assert(worklist.items()[i - 1] == pre_wl.items()[i]);
                            assert((worklist.items()[i - 1].variable_id,
                                worklist.items()[i - 1].constraint_id) == p);
                        }
                    }
                    // Queued pairs after the pop were queued before.
                    assert forall|p: (VariableId, usize)| #[trigger]
                        worklist.pairs().contains(p) implies pre_pairs.contains(p) by {
                        let i = choose|i: int|
                            0 <= i < worklist.items().len() && (
                            #[trigger] worklist.items()[i].variable_id,
                            worklist.items()[i].constraint_id,
                            ) == p;
                        if i < k {
                            assert(pre_wl.items()[i] == worklist.items()[i]);
                            assert((pre_wl.items()[i].variable_id,
                                pre_wl.items()[i].constraint_id) == p);
                        } else {
                            assert(pre_wl.items()[i + 1] == worklist.items()[i]);
                            assert((pre_wl.items()[i + 1].variable_id,
                                pre_wl.items()[i + 1].constraint_id) == p);
                        }
                    }
                }
                let c = &constraints[constraint_id];
                let mut rec = stats.constraint_stats[constraint_id];
                rec.revisions = sat_inc(rec.revisions);
                let start_time = instant_now();
                let outcome = c.revise(&target_var, &solution);
                match outcome {
                    Result::Err(e) => {
                        proof {
                            let d = solution.doms();
                            assert(constraints@[constraint_id as int].revise_err(target_var, d));
                            assert(d.dom() =~= initial_solution.doms().dom());
                            if arc_stable(constraints@, initial_solution) {
                                assert(solution == initial_solution);
                                assert(!constraints@[constraint_id as int].revise_err(
                                    target_var,
                                    solution.doms(),
                                ));
                            }
                        }
                        return Err(e);
                    },
                    Result::Ok(Option::None) => {
                        rec.time_spent_micros = sat_add(
                            rec.time_spent_micros,
                            elapsed_micros_since(&start_time),
                        );
                        stats.constraint_stats[constraint_id] = rec;
                        proof {
                            assert forall|i: int, v: VariableId|
                                0 <= i < constraints@.len() && #[trigger] constraints@[
                                    i
                                ].vars_spec().contains(v) implies worklist.pairs().contains(
                                (v, i as usize),
                            ) || {
                                &&& !constraints@[i].revise_err(v, solution.doms())
                                &&& solution.doms()[v].subset_of(
                                    constraints@[i].keep_set(v, solution.doms()),
                                )
                            } by {
                                if (v, i as usize) != (target_var, constraint_id) {
                                    if pre_pairs.contains((v, i as usize)) {
                                        assert(worklist.pairs().contains((v, i as usize)));
                                    }
                                }
                            }
                        }
                    },
                    Result::Ok(Option::Some(new_solution)) => {
                        let ghost old_doms = solution.doms();
                        let ghost new_doms = new_solution.doms();
                        proof {
                            // A pruning cannot happen when the start
                            // was already arc-consistent.
                            if arc_stable(constraints@, initial_solution) {
                                assert(constraints@[constraint_id as int].vars_spec().contains(
                                    target_var,
                                ));
                                assert(old_doms[target_var].subset_of(
                                    constraints@[constraint_id as int].keep_set(
                                        target_var,
                                        old_doms,
                                    ),
                                ));
                                assert(false);
                            }
                        }
                        proof {
                            assert(new_doms.dom().contains(target_var));
                            assert(new_solution.dmap().dom().contains(target_var));
                        }
                        let new_len = new_solution.get_domain(target_var).unwrap().len();
                        if new_len == 0 {
                            proof {
                                let d = solution.doms();
                                let cc = constraints@[constraint_id as int];
                                let keep = cc.keep_set(target_var, d);
                                assert(new_doms[target_var] == d[target_var].intersect(keep));
                                new_solution.lemma_wf_doms_finite();
                                assert(d[target_var].intersect(keep).len() == 0);
                                solution.lemma_wf_doms_finite();
                                assert(d[target_var].len() != 0) by {
                                    if d[target_var].len() == 0 {
                                        d[target_var].lemma_len0_is_empty();
                                        assert(d[target_var].subset_of(keep));
                                    }
                                }
                                assert(d.dom() =~= initial_solution.doms().dom());
                                // No solving refinement survives a
                                // wiped-out arc.
                                assert forall|w: Map<VariableId, Set<StandardValue>>|
                                    #![trigger solving_refinement(constraints@, w, init_doms)]
                                    !solving_refinement(constraints@, w, init_doms) by {
                                    if solving_refinement(constraints@, w, init_doms) {
                                        assert forall|u: VariableId|
                                            #![trigger cc.vars_spec().contains(u)]
                                            cc.vars_spec().contains(u) implies d.dom().contains(
                                            u,
                                        ) by {}
                                        lemma_refinement_respects_prune(
                                            constraints@,
                                            w,
                                            d,
                                            init_doms,
                                            constraint_id as int,
                                            target_var,
                                        );
                                        assert(new_doms.dom().contains(target_var));
                                        assert(new_doms[target_var].len() == 0);
                                        new_doms[target_var].lemma_len0_is_empty();
                                        assert(w[target_var].subset_of(new_doms[target_var]));
                                        assert(w.dom().contains(target_var));
                                        assert(w[target_var] =~= Set::<StandardValue>::empty());
                                        assert(w[target_var].len() == 1);
                                    }
                                }
                                assert(init_doms == initial_solution.doms());
                            }
                            return Ok(None);
                        }
                        rec.prunings = sat_inc(rec.prunings);
                        rec.time_spent_micros = sat_add(
                            rec.time_spent_micros,
                            elapsed_micros_since(&start_time),
                        );
                        stats.constraint_stats[constraint_id] = rec;
                        // The domain of the target shrank: requeue every
                        // arc of every constraint that mentions the
                        // target, for its other variables.
                        let mut j2: usize = 0;
                        while j2 < constraints.len()
                            invariant
                                j2 <= constraints@.len(),
                                forall|p: (VariableId, usize)| #[trigger]
                                    worklist.pairs().contains(p) ==> p.1 < constraints@.len()
                                        && constraints@[p.1 as int].vars_spec().contains(p.0),
                                forall|p: (VariableId, usize)| #[trigger]
                                    pre_pairs.contains(p) && p != (target_var, constraint_id)
                                        ==> worklist.pairs().contains(p),
                                forall|i: int, v: VariableId|
                                    0 <= i < j2 && #[trigger] constraints@[
                                        i
                                    ].vars_spec().contains(v) && constraints@[
                                        i
                                    ].vars_spec().contains(target_var) && v != target_var
                                        ==> worklist.pairs().contains((v, i as usize)),
                            decreases constraints@.len() - j2,
                        {
                            let c2 = &constraints[j2];
                            let vars2 = c2.variables();
                            if contains_var(vars2, target_var) {
                                let prio2 = c2.priority();
                                let mut k: usize = 0;
                                while k < vars2.len()
                                    invariant
                                        k <= vars2@.len(),
                                        j2 < constraints@.len(),
                                        vars2@ == constraints@[j2 as int].vars_spec(),
                                        forall|p: (VariableId, usize)| #[trigger]
                                            worklist.pairs().contains(p) ==> p.1
                                                < constraints@.len() && constraints@[
                                                p.1 as int
                                            ].vars_spec().contains(p.0),
                                        forall|p: (VariableId, usize)| #[trigger]
                                            pre_pairs.contains(p) && p != (
                                                target_var,
                                                constraint_id,
                                            ) ==> worklist.pairs().contains(p),
                                        forall|i: int, v: VariableId|
                                            0 <= i < j2 && #[trigger] constraints@[
                                                i
                                            ].vars_spec().contains(v) && constraints@[
                                                i
                                            ].vars_spec().contains(target_var) && v != target_var
                                                ==> worklist.pairs().contains((v, i as usize)),
                                        forall|kk: int|
                                            0 <= kk < k && vars2@[kk] != target_var
                                                ==> worklist.pairs().contains(
                                                (vars2@[kk], j2 as usize),
                                            ),
                                    decreases vars2@.len() - k,
                                {
                                    let v2 = vars2[k];
                                    if v2 != target_var {
                                        proof {
                                            assert(vars2@.contains(v2));
                                        }
                                        worklist.push_back(prio2, v2, j2);
                                    }
                                    k += 1;
                                }
                                proof {
                                    assert forall|v: VariableId| #[trigger]
                                        constraints@[j2 as int].vars_spec().contains(v) && v
                                            != target_var implies worklist.pairs().contains(
                                        (v, j2 as usize),
                                    ) by {
                                        let kk = choose|kk: int|
                                            0 <= kk < vars2@.len() && vars2@[kk] == v;
                                        assert(worklist.pairs().contains(
                                            (vars2@[kk], j2 as usize),
                                        ));
                                    }
                                }
                            }
                            j2 += 1;
                        }
                        proof {
                            // Re-establish arc stability under the new
                            // domains.
                            assert(new_doms == old_doms.insert(
                                target_var,
                                old_doms[target_var].intersect(
                                    constraints@[constraint_id as int].keep_set(
                                        target_var,
                                        old_doms,
                                    ),
                                ),
                            ));
                            assert forall|i: int, v: VariableId|
                                0 <= i < constraints@.len() && #[trigger] constraints@[
                                    i
                                ].vars_spec().contains(v) implies worklist.pairs().contains(
                                (v, i as usize),
                            ) || {
                                &&& !constraints@[i].revise_err(v, new_doms)
                                &&& new_doms[v].subset_of(constraints@[i].keep_set(v, new_doms))
                            } by {
                                let cc = constraints@[i];
                                if cc.vars_spec().contains(target_var) && v != target_var {
                                    assert(worklist.pairs().contains((v, i as usize)));
                                } else {
                                    // Either the target is not one of
                                    // this constraint's variables, or it
                                    // is the target arc itself: the keep
                                    // set is unchanged.
                                    cc.lemma_keep_frame(v, old_doms, new_doms);
                                    if v == target_var {
                                        if i == constraint_id {
                                            assert(new_doms[v].subset_of(
                                                cc.keep_set(v, old_doms),
                                            ));
                                        } else {
                                            if !worklist.pairs().contains((v, i as usize)) {
                                                assert(!pre_pairs.contains((v, i as usize)));
                                                assert(old_doms[v].subset_of(
                                                    cc.keep_set(v, old_doms),
                                                ));
                                                assert(new_doms[v].subset_of(
                                                    cc.keep_set(v, old_doms),
                                                ));
                                            }
                                        }
                                    } else {
                                        if !worklist.pairs().contains((v, i as usize)) {
                                            assert(!pre_pairs.contains((v, i as usize)));
                                            assert(new_doms[v] == old_doms[v]);
                                        }
                                    }
                                }
                            }
                            // A solving refinement survives the
                            // pruning.
                            assert forall|w: Map<VariableId, Set<StandardValue>>|
                                #![trigger solving_refinement(constraints@, w, init_doms)]
                                solving_refinement(constraints@, w, init_doms) implies forall|
                                v: VariableId,
                            | #[trigger] w.dom().contains(v) ==> w[v].subset_of(new_doms[v]) by {
                                assert forall|v: VariableId| #[trigger]
                                    w.dom().contains(v) implies w[v].subset_of(new_doms[v]) by {
                                    if v == target_var {
                                        let cc = constraints@[constraint_id as int];
                                        assert forall|u: VariableId|
                                            #![trigger cc.vars_spec().contains(u)]
                                            cc.vars_spec().contains(u) implies old_doms.dom().contains(
                                            u,
                                        ) by {}
                                        lemma_refinement_respects_prune(
                                            constraints@,
                                            w,
                                            old_doms,
                                            init_doms,
                                            constraint_id as int,
                                            target_var,
                                        );
                                    } else {
                                        assert(new_doms[v] == old_doms[v]);
                                        assert(w[v].subset_of(old_doms[v]));
                                    }
                                }
                            }
                            // Refinement of the initial domains.
                            assert forall|v: VariableId| #[trigger]
                                new_doms.dom().contains(v) implies new_doms[v].subset_of(
                                init_doms[v],
                            ) by {
                                if v != target_var {
                                    assert(new_doms[v] == solution.doms()[v]);
                                }
                            }
                            assert forall|v: VariableId| #[trigger]
                                new_doms.dom().contains(v) && new_doms[v].len() == 0
                                implies init_doms[v].len() == 0 by {
                                if v == target_var {
                                    // The wipeout check above ruled out
                                    // an empty target domain.
                                    assert(new_doms[v].finite());
                                    assert(new_doms[v].len() != 0);
                                } else {
                                    assert(new_doms[v] == solution.doms()[v]);
                                }
                            }
                        }
                        proof {
                            // The total size of the domains strictly
                            // decreases: the target's domain lost at
                            // least one value.
                            solution.lemma_wf_doms_finite();
                            new_solution.lemma_wf_doms_finite();
                            let keep = constraints@[constraint_id as int].keep_set(
                                target_var,
                                old_doms,
                            );
                            vstd::set_lib::lemma_len_subset(
                                old_doms[target_var].intersect(keep),
                                old_doms[target_var],
                            );
                            assert(new_doms[target_var].len() < old_doms[target_var].len()) by {
                                if new_doms[target_var].len() == old_doms[target_var].len() {
                                    vstd::set_lib::lemma_subset_equality(
                                        old_doms[target_var].intersect(keep),
                                        old_doms[target_var],
                                    );
                                    assert forall|x: StandardValue|
                                        old_doms[target_var].contains(x) implies keep.contains(
                                        x,
                                    ) by {
                                        assert(old_doms[target_var].intersect(keep).contains(x));
                                    }
                                }
                            }
                            assert forall|k: VariableId| #[trigger]
                                init_doms.dom().contains(k) implies new_doms[k].len()
                                <= old_doms[k].len() by {
                                if k != target_var {
                                    assert(new_doms[k] == old_doms[k]);
                                }
                            }
                            lemma_doms_size_lt(old_doms, new_doms, init_doms.dom(), target_var);
                        }
                        solution = new_solution;
                    },
                }
            },
        }
    }
}

/// The variables whose domains still hold more than one value: the
/// termination measure of the backtracking search.
pub open spec fn multi_vars(
    doms: Map<VariableId, Set<StandardValue>>,
    keys: Set<VariableId>,
) -> Set<VariableId> {
    Set::new(|v: VariableId| keys.contains(v) && doms[v].len() >= 2)
}

/// Assigning the branching variable and propagating strictly shrinks
/// the set of unassigned variables.
proof fn lemma_multi_vars_decrease(
    d1: Map<VariableId, Set<StandardValue>>,
    d2: Map<VariableId, Set<StandardValue>>,
    keys: Set<VariableId>,
    branch: VariableId,
)
    requires
        keys.finite(),
        forall|k: VariableId| #[trigger]
            keys.contains(k) ==> d1[k].finite() && d2[k].subset_of(d1[k]),
        keys.contains(branch),
        d1[branch].len() >= 2,
        d2[branch].len() <= 1,
    ensures
        multi_vars(d2, keys).len() < multi_vars(d1, keys).len(),
{
    let m1 = multi_vars(d1, keys);
    let m2 = multi_vars(d2, keys);
    assert forall|v: VariableId| m2.contains(v) implies m1.contains(v) by {
        vstd::set_lib::lemma_len_subset(d2[v], d1[v]);
    }
    assert(m1.subset_of(keys));
    vstd::set_lib::lemma_len_subset(m1, keys);
    vstd::set_lib::lemma_len_subset(m2, m1);
    assert(m1.contains(branch) && !m2.contains(branch));
    if m2.len() == m1.len() {
        vstd::set_lib::lemma_subset_equality(m2, m1);
        assert(m2.contains(branch));
    }
}

/// One node of the backtracking exploration: branch on a variable,
/// try each value in the heuristic's order, propagate and recurse.
#[verifier::loop_isolation(false)]
fn search<C: Constraint, VH: VariableSelectionHeuristic, OH: ValueOrderingHeuristic>(
    variable_heuristic: &VH,
    value_heuristic: &OH,
    constraints: &Vec<C>,
    solution: Solution,
    stats: SearchStats,
) -> (r: Result<(Option<Solution>, SearchStats), Error>)
    requires
        problem_wf(constraints@, solution),
        arc_stable(constraints@, solution),
    ensures
        match r {
            Result::Ok((Option::Some(s), _)) => {
                &&& s.wf()
                &&& s.doms().dom() == solution.doms().dom()
                &&& s.meta() == solution.meta()
                &&& forall|v: VariableId| #[trigger]
                    s.doms().dom().contains(v) ==> s.doms()[v].subset_of(solution.doms()[v])
                &&& arc_stable(constraints@, s)
                &&& s.complete()
            },
            Result::Ok((Option::None, _)) => forall|w: Map<VariableId, Set<StandardValue>>|
                #![trigger solving_refinement(constraints@, w, solution.doms())]
                !solving_refinement(constraints@, w, solution.doms()),
            Result::Err(_) => exists|d: Map<VariableId, Set<StandardValue>>, i: int, v: VariableId|
                {
                    &&& d.dom() == solution.doms().dom()
                    &&& forall|u: VariableId| #[trigger]
                        d.dom().contains(u) ==> d[u].subset_of(solution.doms()[u])
                    &&& 0 <= i < constraints@.len()
                    &&& constraints@[i].vars_spec().contains(v)
                    &&& #[trigger] constraints@[i].revise_err(v, d)
                },
        },
    decreases multi_vars(solution.doms(), solution.doms().dom()).len(),
{
    let mut stats = stats;
    stats.nodes_visited = sat_inc(stats.nodes_visited);

    if solution.is_complete() {
        return Ok((Some(solution), stats));
    }
    let picked = variable_heuristic.select_variable(&solution);
    let var_to_branch = match picked {
        Option::None => {
            // Not complete, yet no variable has room: some domain is
            // already empty, so no refinement of this branch can be a
            // complete assignment.
            proof {
                solution.lemma_wf_doms_finite();
                assert forall|w: Map<VariableId, Set<StandardValue>>|
                    #![trigger solving_refinement(constraints@, w, solution.doms())]
                    !solving_refinement(constraints@, w, solution.doms()) by {
                    if solving_refinement(constraints@, w, solution.doms()) {
                        let v0 = choose|v0: VariableId| #[trigger]
                            solution.doms().dom().contains(v0) && solution.doms()[v0].len() != 1;
                        assert(solution.doms()[v0].len() == 0);
                        solution.doms()[v0].lemma_len0_is_empty();
                        assert(w.dom().contains(v0));
                        assert(w[v0].subset_of(solution.doms()[v0]));
                        assert(w[v0] =~= Set::<StandardValue>::empty());
                        assert(w[v0].len() == 1);
                    }
                }
            }
            return Ok((None, stats));
        },
        Option::Some(v) => v,
    };
    let values = value_heuristic.order_values(var_to_branch, &solution);
    let ghost sol_doms = solution.doms();
    let ghost keys = solution.doms().dom();
    proof {
        assert(keys =~= solution.dmap().dom());
        solution.lemma_wf_doms_finite();
    }
    let mut i: usize = 0;
    while i < values.len()
        invariant
            i <= values@.len(),
            forall|w: Map<VariableId, Set<StandardValue>>|
                #![trigger solving_refinement(constraints@, w, sol_doms)]
                solving_refinement(constraints@, w, sol_doms) ==> forall|j: int|
                    0 <= j < i ==> w[var_to_branch] != Set::empty().insert(values@[j]),
        decreases values@.len() - i,
    {
        let value = values[i];
        proof {
            assert(values@.contains(value));
            assert(sol_doms[var_to_branch].contains(value));
        }
        let new_domain = singleton_domain(value);
        let guess_solution = solution.set_domain(var_to_branch, new_domain);
        proof {
            assert(guess_solution.doms() =~= sol_doms.insert(
                var_to_branch,
                Set::empty().insert(value),
            ));
            assert(guess_solution.doms().dom() =~= keys);
            assert forall|k: VariableId| #[trigger]
                guess_solution.dmap().dom().contains(k) implies guess_solution.dmap()[k].inv() by {
                if k != var_to_branch {
                    assert(solution.dmap().dom().contains(k));
                }
            }
            assert(guess_solution.wf());
        }
        let ghost guess_doms = guess_solution.doms();
        let propagated = propagate(constraints, guess_solution, &mut stats);
        match propagated {
            Result::Err(e) => {
                proof {
                    let (d, ii, vv) = choose|
                        d: Map<VariableId, Set<StandardValue>>,
                        ii: int,
                        vv: VariableId,
                    |
                        {
                            &&& d.dom() == guess_doms.dom()
                            &&& forall|u: VariableId| #[trigger]
                                d.dom().contains(u) ==> d[u].subset_of(guess_doms[u])
                            &&& 0 <= ii < constraints@.len()
                            &&& constraints@[ii].vars_spec().contains(vv)
                            &&& #[trigger] constraints@[ii].revise_err(vv, d)
                        };
                    assert forall|u: VariableId| #[trigger]
                        d.dom().contains(u) implies d[u].subset_of(sol_doms[u]) by {
                        if u == var_to_branch {
                            assert(guess_doms[u] == Set::empty().insert(value));
                            assert(Set::empty().insert(value).subset_of(sol_doms[u]));
                        } else {
                            assert(guess_doms[u] == sol_doms[u]);
                        }
                    }
                    assert(d.dom() == sol_doms.dom() && constraints@[ii].revise_err(vv, d));
                }
                return Err(e);
            },
            Result::Ok(Option::None) => {
                // No refinement pins the branching variable to this
                // value: the guess itself wiped out.
                proof {
                    assert forall|w: Map<VariableId, Set<StandardValue>>|
                        #![trigger solving_refinement(constraints@, w, sol_doms)]
                        solving_refinement(constraints@, w, sol_doms) implies w[var_to_branch]
                        != Set::empty().insert(value) by {
                        if w[var_to_branch] == Set::empty().insert(value) {
                            assert(solving_refinement(constraints@, w, guess_doms)) by {
                                assert(w.dom() == guess_doms.dom());
                                assert forall|u: VariableId| #[trigger]
                                    w.dom().contains(u) implies w[u].subset_of(
                                    guess_doms[u],
                                ) by {
                                    if u == var_to_branch {
                                        assert(guess_doms[u] == Set::empty().insert(value));
                                    } else {
                                        assert(guess_doms[u] == sol_doms[u]);
                                    }
                                }
                            }
                            assert(!solving_refinement(constraints@, w, guess_doms));
                        }
                    }
                }
            },
            Result::Ok(Option::Some(prop)) => {
                proof {
                    assert(prop.doms().dom() =~= keys);
                    assert forall|k: VariableId| #[trigger]
                        keys.contains(k) implies sol_doms[k].finite() && prop.doms()[
                        k
                    ].subset_of(sol_doms[k]) by {
                        if k == var_to_branch {
                            assert(prop.doms()[k].subset_of(Set::empty().insert(value)));
                            assert(Set::empty().insert(value).subset_of(sol_doms[k]));
                        } else {
                            assert(prop.doms()[k].subset_of(guess_solution.doms()[k]));
                            assert(guess_solution.doms()[k] == sol_doms[k]);
                        }
                    }
                    assert(prop.doms()[var_to_branch].subset_of(Set::empty().insert(value)));
                    vstd::set_lib::lemma_len_subset(
                        prop.doms()[var_to_branch],
                        Set::empty().insert(value),
                    );
                    lemma_multi_vars_decrease(sol_doms, prop.doms(), keys, var_to_branch);
                    assert(multi_vars(prop.doms(), prop.doms().dom()) =~= multi_vars(
                        prop.doms(),
                        keys,
                    ));
                }
                let ghost prop_doms = prop.doms();
                let recursed = search(
                    variable_heuristic,
                    value_heuristic,
                    constraints,
                    prop,
                    stats,
                );
                match recursed {
                    Result::Err(e) => {
                        proof {
                            let (d, ii, vv) = choose|
                                d: Map<VariableId, Set<StandardValue>>,
                                ii: int,
                                vv: VariableId,
                            |
                                {
                                    &&& d.dom() == prop_doms.dom()
                                    &&& forall|u: VariableId| #[trigger]
                                        d.dom().contains(u) ==> d[u].subset_of(prop_doms[u])
                                    &&& 0 <= ii < constraints@.len()
                                    &&& constraints@[ii].vars_spec().contains(vv)
                                    &&& #[trigger] constraints@[ii].revise_err(vv, d)
                                };
                            assert forall|u: VariableId| #[trigger]
                                d.dom().contains(u) implies d[u].subset_of(sol_doms[u]) by {
                                assert(d[u].subset_of(prop_doms[u]));
                                assert(prop_doms.dom().contains(u));
                                assert(prop_doms[u].subset_of(sol_doms[u]));
                            }
                            assert(d.dom() == sol_doms.dom() && constraints@[ii].revise_err(
                                vv,
                                d,
                            ));
                        }
                        return Err(e);
                    },
                    Result::Ok((found_solution, new_stats)) => {
                        stats = new_stats;
                        if let Some(found) = found_solution {
                            proof {
                                assert forall|v: VariableId| #[trigger]
                                    found.doms().dom().contains(v) implies found.doms()[
                                    v
                                ].subset_of(sol_doms[v]) by {
                                    if v == var_to_branch {
                                        assert(found.doms()[v].subset_of(
                                            Set::empty().insert(value),
                                        ));
                                    }
                                }
                            }
                            return Ok((Some(found), stats));
                        }
                        // The whole subtree under this value failed:
                        // no refinement pins the branching variable to
                        // it.
                        proof {
                            assert forall|w: Map<VariableId, Set<StandardValue>>|
                                #![trigger solving_refinement(constraints@, w, sol_doms)]
                                solving_refinement(constraints@, w, sol_doms)
                                implies w[var_to_branch] != Set::empty().insert(value) by {
                                if w[var_to_branch] == Set::empty().insert(value) {
                                    assert(solving_refinement(constraints@, w, guess_doms)) by {
                                        assert(w.dom() == guess_doms.dom());
                                        assert forall|u: VariableId| #[trigger]
                                            w.dom().contains(u) implies w[u].subset_of(
                                            guess_doms[u],
                                        ) by {
                                            if u == var_to_branch {
                                                assert(guess_doms[u] == Set::empty().insert(
                                                    value,
                                                ));
                                            } else {
                                                assert(guess_doms[u] == sol_doms[u]);
                                            }
                                        }
                                    }
                                    assert(forall|u: VariableId| #[trigger]
                                        w.dom().contains(u) ==> w[u].subset_of(prop_doms[u]));
                                    assert(solving_refinement(constraints@, w, prop_doms)) by {
                                        assert(w.dom() == prop_doms.dom());
                                    }
                                    assert(!solving_refinement(constraints@, w, prop_doms));
                                }
                            }
                        }
                    },
                }
            },
        }
        stats.backtracks = sat_inc(stats.backtracks);
        i += 1;
    }
    proof {
        // Every candidate value for the branching variable failed, so
        // no refinement exists: any one would pin the variable to one
        // of them.
        assert forall|w: Map<VariableId, Set<StandardValue>>|
            #![trigger solving_refinement(constraints@, w, sol_doms)]
            !solving_refinement(constraints@, w, sol_doms) by {
            if solving_refinement(constraints@, w, sol_doms) {
                assert(w.dom().contains(var_to_branch));
                let x = w[var_to_branch].choose();
                assert(w[var_to_branch].contains(x)) by {
                    if !(exists|a: StandardValue| w[var_to_branch].contains(a)) {
                        assert(w[var_to_branch] =~= Set::empty());
                    }
                }
                crate::solver::solution::lemma_pinned_is_singleton(w[var_to_branch], x);
                assert(sol_doms[var_to_branch].contains(x));
                assert(values@.to_set().contains(x));
                let j = choose|j: int| 0 <= j < values@.len() && values@[j] == x;
                assert(w[var_to_branch] != Set::empty().insert(values@[j]));
            }
        }
    }
    Ok((None, stats))
}

/// A search algorithm for the solver engine. Strategies are modular
/// and composable: plain backtracking, restarts around an inner
/// strategy, or propagation alone.
pub trait SearchStrategy<C: Constraint>: Sized {
    /// Whether a solution this strategy hands back is always a
    /// complete assignment.
    spec fn claims_complete(&self) -> bool;

    /// Whether this strategy only propagates: it visits no search
    /// nodes and takes no backtracks.
    spec fn claims_search_free(&self) -> bool;

    /// Attempts to find a solution to the given constraint problem.
    ///
    /// `Ok((Some(s), stats))` holds a solution: an arc-consistent
    /// refinement of the initial domains, complete whenever the
    /// strategy claims completeness. `Ok((None, stats))` reports
    /// infeasibility: no solving refinement of the initial domains
    /// exists at all. `Err` propagates programming errors out of
    /// revision, and names a reached refinement of the domains on
    /// which a revision errs.
    fn solve(&self, constraints: &Vec<C>, initial_solution: Solution) -> (r: Result<
        (Option<Solution>, SearchStats),
        Error,
    >)
        requires
            problem_wf(constraints@, initial_solution),
        ensures
            match r {
                Result::Ok((outcome, st)) => {
                    &&& match outcome {
                        Option::Some(s) => {
                            &&& s.wf()
                            &&& s.doms().dom() == initial_solution.doms().dom()
                            &&& s.meta() == initial_solution.meta()
                            &&& forall|v: VariableId| #[trigger]
                                s.doms().dom().contains(v) ==> s.doms()[v].subset_of(
                                    initial_solution.doms()[v],
                                )
                            &&& arc_stable(constraints@, s)
                            &&& self.claims_complete() ==> s.complete()
                        },
                        Option::None => forall|w: Map<VariableId, Set<StandardValue>>|
                            #![trigger solving_refinement(
                                constraints@,
                                w,
                                initial_solution.doms(),
                            )]
                            !solving_refinement(constraints@, w, initial_solution.doms()),
                    }
                    &&& self.claims_search_free() ==> st.nodes_visited == 0 && st.backtracks
                        == 0
                },
                Result::Err(_) => exists|
                    d: Map<VariableId, Set<StandardValue>>,
                    i: int,
                    v: VariableId,
                |
                    {
                        &&& d.dom() == initial_solution.doms().dom()
                        &&& forall|u: VariableId| #[trigger]
                            d.dom().contains(u) ==> d[u].subset_of(initial_solution.doms()[u])
                        &&& 0 <= i < constraints@.len()
                        &&& constraints@[i].vars_spec().contains(v)
                        &&& #[trigger] constraints@[i].revise_err(v, d)
                    },
            },
    ;
}

/// Chronological backtracking: depth-first search guided by a
/// variable-selection and a value-ordering heuristic.
pub struct BacktrackingSearch<VH, OH> {
    /// Chooses which variable to branch on next.
    pub variable_heuristic: VH,
    /// Orders the values to try for the chosen variable.
    pub value_heuristic: OH,
}

impl<VH, OH> BacktrackingSearch<VH, OH> {
    /// Creates a new backtracking strategy from the two heuristics.
    pub fn new(variable_heuristic: VH, value_heuristic: OH) -> (r: Self)
        ensures
            r.variable_heuristic == variable_heuristic,
            r.value_heuristic == value_heuristic,
    {
        BacktrackingSearch { variable_heuristic, value_heuristic }
    }
}

impl<
    C: Constraint,
    VH: VariableSelectionHeuristic,
    OH: ValueOrderingHeuristic,
> SearchStrategy<C> for BacktrackingSearch<VH, OH> {
    open spec fn claims_complete(&self) -> bool {
        true
    }

    open spec fn claims_search_free(&self) -> bool {
        false
    }

    fn solve(&self, constraints: &Vec<C>, initial_solution: Solution) -> (r: Result<
        (Option<Solution>, SearchStats),
        Error,
    >) {
        let ghost init = initial_solution;
        let mut stats = SearchStats::default();
        let propagated = propagate(constraints, initial_solution, &mut stats);
        match propagated {
            Result::Err(e) => Err(e),
            Result::Ok(Option::None) => Ok((None, stats)),
            Result::Ok(Option::Some(solution)) => {
                if solution.is_complete() {
                    return Ok((Some(solution), stats));
                }
                let ghost prop_doms = solution.doms();
                let searched = search(
                    &self.variable_heuristic,
                    &self.value_heuristic,
                    constraints,
                    solution,
                    stats,
                );
                proof {
                    match searched {
                        Result::Ok((Option::None, _)) => {
                            assert forall|w: Map<VariableId, Set<StandardValue>>|
                                #![trigger solving_refinement(constraints@, w, init.doms())]
                                !solving_refinement(constraints@, w, init.doms()) by {
                                if solving_refinement(constraints@, w, init.doms()) {
                                    assert(forall|v: VariableId| #[trigger]
                                        w.dom().contains(v) ==> w[v].subset_of(prop_doms[v]));
                                    assert(solving_refinement(constraints@, w, prop_doms)) by {
                                        assert(w.dom() == prop_doms.dom());
                                    }
                                    assert(!solving_refinement(constraints@, w, prop_doms));
                                }
                            }
                        },
                        Result::Err(_) => {
                            let (d, ii, vv) = choose|
                                d: Map<VariableId, Set<StandardValue>>,
                                ii: int,
                                vv: VariableId,
                            |
                                {
                                    &&& d.dom() == prop_doms.dom()
                                    &&& forall|u: VariableId| #[trigger]
                                        d.dom().contains(u) ==> d[u].subset_of(prop_doms[u])
                                    &&& 0 <= ii < constraints@.len()
                                    &&& constraints@[ii].vars_spec().contains(vv)
                                    &&& #[trigger] constraints@[ii].revise_err(vv, d)
                                };
                            assert forall|u: VariableId| #[trigger]
                                d.dom().contains(u) implies d[u].subset_of(init.doms()[u]) by {
                                assert(d[u].subset_of(prop_doms[u]));
                                assert(prop_doms.dom().contains(u));
                                assert(prop_doms[u].subset_of(init.doms()[u]));
                            }
                            assert(d.dom() == init.doms().dom() && constraints@[
                                ii
                            ].revise_err(vv, d));
                        },
                        _ => {},
                    }
                }
                searched
            },
        }
    }
}

/// Wraps an inner strategy with a restart policy: each attempt starts
/// from the original solution, and the statistics of all attempts are
/// accumulated.
pub struct RestartingSearch<Inner, P> {
    /// The strategy run on every attempt.
    pub inner_strategy: Inner,
    /// Decides, from the last attempt's statistics, whether to start
    /// over.
    pub restart_policy: P,
}

impl<Inner, P> RestartingSearch<Inner, P> {
    /// Creates a new restarting strategy around an inner strategy.
    pub fn new(inner_strategy: Inner, restart_policy: P) -> (r: Self)
        ensures
            r.inner_strategy == inner_strategy,
            r.restart_policy == restart_policy,
    {
        RestartingSearch { inner_strategy, restart_policy }
    }
}

/// What a missing per-constraint record counts as when merging: all
/// counters zero.
pub open spec fn record_or_zero(records: Seq<PerConstraintStats>, i: int) -> PerConstraintStats {
    if 0 <= i < records.len() {
        records[i]
    } else {
        PerConstraintStats { revisions: 0, prunings: 0, time_spent_micros: 0 }
    }
}

/// Accumulates the statistics of one attempt into the running totals:
/// every counter, global and per-constraint, adds up, saturating at
/// the counter width.
#[verifier::loop_isolation(false)]
fn merge_stats(cumulative: &mut SearchStats, attempt: &SearchStats)
    ensures
        final(cumulative).nodes_visited == sat_add_spec(
            old(cumulative).nodes_visited,
            attempt.nodes_visited,
        ),
        final(cumulative).backtracks == sat_add_spec(
            old(cumulative).backtracks,
            attempt.backtracks,
        ),
        final(cumulative).constraint_stats@.len() as int == if old(
            cumulative,
        ).constraint_stats@.len() >= attempt.constraint_stats@.len() {
            old(cumulative).constraint_stats@.len() as int
        } else {
            attempt.constraint_stats@.len() as int
        },
        forall|i: int|
            0 <= i < final(cumulative).constraint_stats@.len() ==> {
                let merged = #[trigger] final(cumulative).constraint_stats@[i];
                let before = record_or_zero(old(cumulative).constraint_stats@, i);
                let gained = record_or_zero(attempt.constraint_stats@, i);
                &&& merged.revisions == sat_add_spec(before.revisions, gained.revisions)
                &&& merged.prunings == sat_add_spec(before.prunings, gained.prunings)
                &&& merged.time_spent_micros == sat_add_spec(
                    before.time_spent_micros,
                    gained.time_spent_micros,
                )
            },
{
    cumulative.nodes_visited = sat_add(cumulative.nodes_visited, attempt.nodes_visited);
    cumulative.backtracks = sat_add(cumulative.backtracks, attempt.backtracks);
    let mut idx: usize = 0;
    while idx < attempt.constraint_stats.len()
        invariant
            idx <= attempt.constraint_stats@.len(),
            cumulative.nodes_visited == sat_add_spec(
                old(cumulative).nodes_visited,
                attempt.nodes_visited,
            ),
            cumulative.backtracks == sat_add_spec(
                old(cumulative).backtracks,
                attempt.backtracks,
            ),
            cumulative.constraint_stats@.len() as int == if old(
                cumulative,
            ).constraint_stats@.len() >= idx {
                old(cumulative).constraint_stats@.len() as int
            } else {
                idx as int
            },
            forall|j: int|
                0 <= j < idx ==> {
                    let merged = #[trigger] cumulative.constraint_stats@[j];
                    let before = record_or_zero(old(cumulative).constraint_stats@, j);
                    let gained = record_or_zero(attempt.constraint_stats@, j);
                    &&& merged.revisions == sat_add_spec(before.revisions, gained.revisions)
                    &&& merged.prunings == sat_add_spec(before.prunings, gained.prunings)
                    &&& merged.time_spent_micros == sat_add_spec(
                        before.time_spent_micros,
                        gained.time_spent_micros,
                    )
                },
            forall|j: int|
                idx <= j < old(cumulative).constraint_stats@.len()
                    ==> #[trigger] cumulative.constraint_stats@[j] == old(
                    cumulative,
                ).constraint_stats@[j],
        decreases attempt.constraint_stats@.len() - idx,
    {
        let rec = attempt.constraint_stats[idx];
        if idx < cumulative.constraint_stats.len() {
            let mut cur = cumulative.constraint_stats[idx];
            cur.revisions = sat_add(cur.revisions, rec.revisions);
            cur.prunings = sat_add(cur.prunings, rec.prunings);
            cur.time_spent_micros = sat_add(cur.time_spent_micros, rec.time_spent_micros);
            cumulative.constraint_stats[idx] = cur;
        } else {
            cumulative.constraint_stats.push(rec);
        }
        idx += 1;
    }
    proof {
        assert forall|i: int|
            0 <= i < cumulative.constraint_stats@.len() implies {
            let merged = #[trigger] cumulative.constraint_stats@[i];
            let before = record_or_zero(old(cumulative).constraint_stats@, i);
            let gained = record_or_zero(attempt.constraint_stats@, i);
            &&& merged.revisions == sat_add_spec(before.revisions, gained.revisions)
            &&& merged.prunings == sat_add_spec(before.prunings, gained.prunings)
            &&& merged.time_spent_micros == sat_add_spec(
                before.time_spent_micros,
                gained.time_spent_micros,
            )
        } by {
            if i >= attempt.constraint_stats@.len() {
                assert(cumulative.constraint_stats@[i] == old(cumulative).constraint_stats@[i]);
            }
        }
    }
}

impl<
    C: Constraint,
    Inner: SearchStrategy<C>,
    P: RestartPolicy,
> SearchStrategy<C> for RestartingSearch<Inner, P> {
    open spec fn claims_complete(&self) -> bool {
        self.inner_strategy.claims_complete()
    }

    open spec fn claims_search_free(&self) -> bool {
        self.inner_strategy.claims_search_free()
    }

    #[verifier::loop_isolation(false)]
    fn solve(&self, constraints: &Vec<C>, initial_solution: Solution) -> (r: Result<
        (Option<Solution>, SearchStats),
        Error,
    >) {
        let mut cumulative = SearchStats::default();
        let mut attempts: u64 = 0;
        loop
            invariant
                problem_wf(constraints@, initial_solution),
                attempts <= u64::MAX,
                self.claims_search_free() ==> cumulative.nodes_visited == 0
                    && cumulative.backtracks == 0,
            decreases u64::MAX - attempts,
        {
            let attempt_start = initial_solution.duplicate();
            let ghost att_doms = attempt_start.doms();
            proof {
                assert(att_doms == initial_solution.doms()) by {
                    assert(att_doms =~= initial_solution.doms());
                }
            }
            let outcome = self.inner_strategy.solve(constraints, attempt_start);
            match outcome {
                Result::Err(e) => {
                    return Err(e);
                },
                Result::Ok((solution, search_stats)) => {
                    merge_stats(&mut cumulative, &search_stats);
                    if solution.is_some() {
                        return Ok((solution, cumulative));
                    }
                    if !self.restart_policy.should_restart(&search_stats) {
                        return Ok((None, cumulative));
                    }
                    if attempts == u64::MAX {
                        // Give up rather than loop without bound.
                        return Ok((None, cumulative));
                    }
                    attempts = attempts + 1;
                },
            }
        }
    }
}

/// Runs a single propagation pass and returns its result, without
/// branching: useful for inspecting the effect of arc consistency.
pub struct PropagationOnlySearch;

impl PropagationOnlySearch {
    /// Creates a new propagation-only strategy.
    pub fn new() -> (r: Self) {
        PropagationOnlySearch
    }

    /// Returns the strategy boxed.
    pub fn boxed() -> (r: Box<PropagationOnlySearch>) {
        Box::new(PropagationOnlySearch)
    }
}

impl<C: Constraint> SearchStrategy<C> for PropagationOnlySearch {
    open spec fn claims_complete(&self) -> bool {
        false
    }

    open spec fn claims_search_free(&self) -> bool {
        true
    }

    fn solve(&self, constraints: &Vec<C>, initial_solution: Solution) -> (r: Result<
        (Option<Solution>, SearchStats),
        Error,
    >) {
        let mut stats = SearchStats::default();
        let outcome = propagate(constraints, initial_solution, &mut stats);
        match outcome {
            Result::Err(e) => Err(e),
            Result::Ok(solution) => Ok((solution, stats)),
        }
    }
}


} // verus!
