//! Variable-selection heuristics: strategies for choosing which
//! unassigned variable to branch on next.

use vstd::prelude::*;

use rand::seq::IteratorRandom;

use crate::solver::engine::VariableId;
use crate::solver::solution::{DomainRepresentation, Solution};
use crate::solver::value::StandardValue;

verus! {

broadcast use vstd::seq_lib::lemma_seq_contains_after_push, Seq::<_>::lemma_push_to_set_commute;

/// A strategy for choosing the next variable to branch on.
pub trait VariableSelectionHeuristic: Sized {
    /// The selection rule the heuristic implements: what its
    /// documented strategy says of the returned choice, beyond the
    /// shared guarantee that the choice is an unassigned variable.
    spec fn selection_rule(&self, solution: Solution, r: Option<VariableId>) -> bool;

    /// Selects an unassigned variable — one whose domain still holds
    /// more than one value — or reports that there is none.
    fn select_variable(&self, solution: &Solution) -> (r: Option<VariableId>)
        requires
            solution.wf(),
        ensures
            match r {
                Option::Some(v) => solution.doms().dom().contains(v) && solution.doms()[v].len()
                    > 1,
                Option::None => forall|v: VariableId| #[trigger]
                    solution.doms().dom().contains(v) ==> solution.doms()[v].len() <= 1,
            },
            self.selection_rule(*solution, r),
    ;
}

/// Determinism of the smallest-identifier selection: at most one
/// choice satisfies the rule, so any two calls on the same solution
/// return the same variable.
pub proof fn lemma_smallest_unassigned_unique(
    solution: Solution,
    r1: Option<VariableId>,
    r2: Option<VariableId>,
)
    requires
        match r1 {
            Option::Some(v) => solution.doms().dom().contains(v) && solution.doms()[v].len() > 1
                && forall|u: VariableId| #[trigger]
                solution.doms().dom().contains(u) && solution.doms()[u].len() > 1 ==> v <= u,
            Option::None => forall|v: VariableId| #[trigger]
                solution.doms().dom().contains(v) ==> solution.doms()[v].len() <= 1,
        },
        match r2 {
            Option::Some(v) => solution.doms().dom().contains(v) && solution.doms()[v].len() > 1
                && forall|u: VariableId| #[trigger]
                solution.doms().dom().contains(u) && solution.doms()[u].len() > 1 ==> v <= u,
            Option::None => forall|v: VariableId| #[trigger]
                solution.doms().dom().contains(v) ==> solution.doms()[v].len() <= 1,
        },
    ensures
        r1 == r2,
{
    match (r1, r2) {
        (Option::Some(v1), Option::Some(v2)) => {
            assert(v1 <= v2 && v2 <= v1);
        },
        (Option::Some(v1), Option::None) => {
            assert(solution.doms()[v1].len() <= 1);
        },
        (Option::None, Option::Some(v2)) => {
            assert(solution.doms()[v2].len() <= 1);
        },
        (Option::None, Option::None) => {},
    }
}

/// Selects the unassigned variable with the smallest identifier.
pub struct SelectFirstHeuristic;

impl VariableSelectionHeuristic for SelectFirstHeuristic {
    /// The choice is the smallest unassigned identifier.
    open spec fn selection_rule(&self, solution: Solution, r: Option<VariableId>) -> bool {
        match r {
            Option::Some(v) => forall|u: VariableId| #[trigger]
                solution.doms().dom().contains(u) && solution.doms()[u].len() > 1 ==> v <= u,
            Option::None => true,
        }
    }

    #[verifier::loop_isolation(false)]
    fn select_variable(&self, solution: &Solution) -> (r: Option<VariableId>) {
        let ids = solution.variable_ids();
        let mut best: Option<VariableId> = None;
        let mut i: usize = 0;
        while i < ids.len()
            invariant
                i <= ids@.len(),
                ids@.to_set() == solution.dmap().dom(),
                match best {
                    Option::Some(b) => solution.doms().dom().contains(b) && solution.doms()[
                        b
                    ].len() > 1 && forall|j: int|
                        0 <= j < i && solution.doms()[ids@[j]].len() > 1 ==> b <= ids@[j],
                    Option::None => forall|j: int|
                        0 <= j < i ==> solution.doms()[ids@[j]].len() <= 1,
                },
            decreases ids@.len() - i,
        {
            let id = ids[i];
            proof {
                assert(ids@.contains(id));
            }
            let d = solution.get_domain(id).unwrap();
            if d.len() > 1 {
                match best {
                    Option::None => {
                        best = Some(id);
                    },
                    Option::Some(b) => {
                        if id < b {
                            best = Some(id);
                        }
                    },
                }
            }
            i += 1;
        }
        proof {
            match best {
                Option::None => {
                    assert forall|v: VariableId| #[trigger]
                        solution.doms().dom().contains(v) implies solution.doms()[v].len()
                        <= 1 by {
                        assert(ids@.to_set().contains(v));
                        let j = choose|j: int| 0 <= j < ids@.len() && ids@[j] == v;
                        assert(solution.doms()[ids@[j]].len() <= 1);
                    }
                },
                Option::Some(b) => {
                    assert forall|u: VariableId| #[trigger]
                        solution.doms().dom().contains(u) && solution.doms()[u].len() > 1
                        implies b <= u by {
                        assert(ids@.to_set().contains(u));
                        let j = choose|j: int| 0 <= j < ids@.len() && ids@[j] == u;
                        assert(b <= ids@[j]);
                    }
                },
            }
        }
        best
    }
}

/// Relies on rand's IteratorRandom::choose with the thread-local
/// generator: some element of the collection, or `None` exactly when
/// it is empty. Which element comes back depends on chance, so nothing
/// more is stated.
#[verifier::external_body]
fn choose_random(vals: Vec<VariableId>) -> (r: Option<VariableId>)
    ensures
        r is Some <==> vals@.len() > 0,
        match r {
            Option::Some(v) => vals@.contains(v),
            Option::None => true,
        },
{
    let mut rng = rand::thread_rng();
    vals.into_iter().choose(&mut rng)
}

/// Selects an unassigned variable uniformly at random; useful together
/// with restarts.
pub struct RandomVariableHeuristic;

impl VariableSelectionHeuristic for RandomVariableHeuristic {
    /// Which unassigned variable comes back depends on chance, so the
    /// shared guarantee is all there is.
    open spec fn selection_rule(&self, solution: Solution, r: Option<VariableId>) -> bool {
        true
    }

    #[verifier::loop_isolation(false)]
    fn select_variable(&self, solution: &Solution) -> (r: Option<VariableId>) {
        let ids = solution.variable_ids();
        let mut unassigned: Vec<VariableId> = Vec::new();
        let mut i: usize = 0;
        while i < ids.len()
            invariant
                i <= ids@.len(),
                ids@.to_set() == solution.dmap().dom(),
                forall|v: VariableId| #[trigger]
                    unassigned@.contains(v) ==> solution.doms().dom().contains(v)
                        && solution.doms()[v].len() > 1,
                forall|j: int|
                    0 <= j < i && solution.doms()[ids@[j]].len() > 1 ==> unassigned@.contains(
                        ids@[j],
                    ),
            decreases ids@.len() - i,
        {
            let id = ids[i];
            proof {
                assert(ids@.contains(id));
            }
            let d = solution.get_domain(id).unwrap();
            let ghost prev = unassigned@;
            if d.len() > 1 {
                unassigned.push(id);
            }
            proof {
                assert(forall|v: VariableId| #[trigger]
                    prev.contains(v) ==> unassigned@.contains(v));
            }
            i += 1;
        }
        let picked = choose_random(unassigned);
        proof {
            if picked is None {
                assert forall|v: VariableId| #[trigger]
                    solution.doms().dom().contains(v) implies solution.doms()[v].len() <= 1 by {
                    assert(ids@.to_set().contains(v));
                    let j = choose|j: int| 0 <= j < ids@.len() && ids@[j] == v;
                    if solution.doms()[v].len() > 1 {
                        assert(false);
                    }
                }
            }
        }
        picked
    }
}

/// Selects the unassigned variable with the fewest remaining values, a
/// fail-first strategy; ties go to the smaller identifier.
pub struct MinimumRemainingValuesHeuristic;

impl VariableSelectionHeuristic for MinimumRemainingValuesHeuristic {
    /// The choice minimises the pair of domain size and identifier,
    /// lexicographically, over the unassigned variables.
    open spec fn selection_rule(&self, solution: Solution, r: Option<VariableId>) -> bool {
        match r {
            Option::Some(v) => forall|u: VariableId| #[trigger]
                solution.doms().dom().contains(u) && solution.doms()[u].len() > 1 ==> {
                    ||| solution.doms()[v].len() < solution.doms()[u].len()
                    ||| (solution.doms()[v].len() == solution.doms()[u].len() && v <= u)
                },
            Option::None => true,
        }
    }

    #[verifier::loop_isolation(false)]
    fn select_variable(&self, solution: &Solution) -> (r: Option<VariableId>) {
        let ids = solution.variable_ids();
        let mut best: Option<(VariableId, usize)> = None;
        let mut i: usize = 0;
        while i < ids.len()
            invariant
                i <= ids@.len(),
                ids@.to_set() == solution.dmap().dom(),
                match best {
                    Option::Some(b) => solution.doms().dom().contains(b.0) && solution.doms()[
                        b.0
                    ].len() > 1 && b.1 == solution.doms()[b.0].len() && forall|j: int|
                        0 <= j < i && solution.doms()[ids@[j]].len() > 1 ==> {
                            ||| solution.doms()[b.0].len() < solution.doms()[ids@[j]].len()
                            ||| (solution.doms()[b.0].len() == solution.doms()[ids@[j]].len()
                                && b.0 <= ids@[j])
                        },
                    Option::None => forall|j: int|
                        0 <= j < i ==> solution.doms()[ids@[j]].len() <= 1,
                },
            decreases ids@.len() - i,
        {
            let id = ids[i];
            proof {
                assert(ids@.contains(id));
            }
            let d = solution.get_domain(id).unwrap();
            let len = d.len();
            if len > 1 {
                match best {
                    Option::None => {
                        best = Some((id, len));
                    },
                    Option::Some(b) => {
                        if len < b.1 || (len == b.1 && id < b.0) {
                            best = Some((id, len));
                        }
                    },
                }
            }
            i += 1;
        }
        proof {
            match best {
                Option::None => {
                    assert forall|v: VariableId| #[trigger]
                        solution.doms().dom().contains(v) implies solution.doms()[v].len()
                        <= 1 by {
                        assert(ids@.to_set().contains(v));
                        let j = choose|j: int| 0 <= j < ids@.len() && ids@[j] == v;
                        assert(solution.doms()[ids@[j]].len() <= 1);
                    }
                },
                Option::Some(b) => {
                    assert forall|u: VariableId| #[trigger]
                        solution.doms().dom().contains(u) && solution.doms()[u].len() > 1
                        implies solution.doms()[b.0].len() < solution.doms()[u].len() || (
                        solution.doms()[b.0].len() == solution.doms()[u].len() && b.0 <= u) by {
                        assert(ids@.to_set().contains(u));
                        let j = choose|j: int| 0 <= j < ids@.len() && ids@[j] == u;
                        assert(solution.doms()[ids@[j]].len() > 1);
                    }
                },
            }
        }
        match best {
            Option::Some(b) => Some(b.0),
            Option::None => None,
        }
    }
}

} // verus!
