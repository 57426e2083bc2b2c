//! A constraint that enforces equality between two variables.

use vstd::prelude::*;

use crate::error::Error;
use crate::solver::constraint::{
    contains_var, finish_revise, foreign_target_error, priority, push_str, push_var, string_of, Constraint, ConstraintDescriptor,
    ConstraintPriority,
};
use crate::solver::engine::VariableId;
use crate::solver::solution::{DomainRepresentation, Solution};
use crate::solver::value::StandardValue;

verus! {

/// Enforces `?a == ?b`.
///
/// Revising a target prunes its domain to the intersection with the
/// other variable's domain.
#[derive(Debug, Clone)]
pub struct EqualConstraint {
    /// The two variables constrained to be equal.
    pub vars: Vec<VariableId>,
}

impl EqualConstraint {
    /// Creates a new constraint enforcing `?a == ?b`.
    pub fn new(a: VariableId, b: VariableId) -> (r: Self)
        ensures
            r.vars@ == seq![a, b],
            r.wf() <==> a != b,
    {
        let r = EqualConstraint { vars: vec![a, b] };
        proof {
            assert(r.vars@ =~= seq![a, b]);
        }
        r
    }

    /// The other variable of the pair.
    pub open spec fn other_spec(&self, target: VariableId) -> VariableId {
        if target == self.vars@[0] {
            self.vars@[1]
        } else {
            self.vars@[0]
        }
    }
}

impl Constraint for EqualConstraint {
    open spec fn vars_spec(&self) -> Seq<VariableId> {
        self.vars@
    }

    open spec fn wf(&self) -> bool {
        self.vars@.len() == 2 && self.vars@[0] != self.vars@[1]
    }

    open spec fn priority_spec(&self) -> ConstraintPriority {
        priority::NORMAL
    }

    open spec fn keep_set(
        &self,
        target: VariableId,
        doms: Map<VariableId, Set<StandardValue>>,
    ) -> Set<StandardValue> {
        doms[self.other_spec(target)]
    }

    open spec fn revise_err(
        &self,
        target: VariableId,
        doms: Map<VariableId, Set<StandardValue>>,
    ) -> bool {
        !self.vars_spec().contains(target)
    }

    proof fn lemma_keep_frame(
        &self,
        target: VariableId,
        d1: Map<VariableId, Set<StandardValue>>,
        d2: Map<VariableId, Set<StandardValue>>,
    ) {
        let other = self.other_spec(target);
        assert(self.vars_spec().contains(other)) by {
            if target == self.vars@[0] {
                assert(self.vars_spec()[1] == other);
            } else {
                assert(self.vars_spec()[0] == other);
            }
        }
        assert(other != target);
        assert(d1[other] == d2[other]);
    }


    proof fn lemma_keep_antitone(
        &self,
        target: VariableId,
        d1: Map<VariableId, Set<StandardValue>>,
        d2: Map<VariableId, Set<StandardValue>>,
    ) {
        let other = self.other_spec(target);
        assert(self.vars_spec().contains(other)) by {
            if target == self.vars@[0] {
                assert(self.vars_spec()[1] == other);
            } else {
                assert(self.vars_spec()[0] == other);
            }
        }
        assert(d2[other].subset_of(d1[other]));
    }

    fn variables(&self) -> (r: &Vec<VariableId>) {
        &self.vars
    }

    fn priority(&self) -> (r: ConstraintPriority) {
        priority::NORMAL
    }

    fn descriptor(&self) -> ConstraintDescriptor {
        let mut description = String::new();
        if self.vars.len() >= 2 {
            push_var(&mut description, self.vars[0]);
            push_str(&mut description, " == ");
            push_var(&mut description, self.vars[1]);
        }
        ConstraintDescriptor { name: string_of("EqualConstraint"), description }
    }

    fn revise(&self, target_var: &VariableId, solution: &Solution) -> (r: Result<
        Option<Solution>,
        Error,
    >) {
        let target = *target_var;
        if !contains_var(&self.vars, target) {
            proof {
                assert(!self.vars_spec().contains(target));
            }
            return Err(foreign_target_error("EqualConstraint", target));
        }
        proof {
            assert(self.vars_spec().contains(target));
        }
        let other = if target == self.vars[0] {
            self.vars[1]
        } else {
            self.vars[0]
        };
        proof {
            assert(other == self.other_spec(target));
            assert(self.vars_spec().contains(other)) by {
                if target == self.vars@[0] {
                    assert(self.vars_spec()[1] == other);
                } else {
                    assert(self.vars_spec()[0] == other);
                }
            }
        }
        let target_dom = solution.get_domain(target).unwrap();
        let other_dom = solution.get_domain(other).unwrap();
        let new_dom = target_dom.intersect(other_dom);
        let ghost keep = self.keep_set(target, solution.doms());
        proof {
            assert(new_dom@ == solution.doms()[target].intersect(keep));
        }
        Ok(finish_revise(solution, target, new_dom, Ghost(keep)))
    }
}

} // verus!
