//! A constraint that enforces inequality between two variables.

use vstd::prelude::*;

use crate::error::Error;
use crate::solver::constraint::{
    contains_var, finish_revise, foreign_target_error, priority, push_str, push_var, string_of, Constraint, ConstraintDescriptor,
    ConstraintPriority,
};
use crate::solver::engine::VariableId;
use crate::solver::solution::{DomainRepresentation, Solution};
use crate::solver::value::StandardValue;

verus! {

/// Enforces `?a != ?b`.
///
/// Revising a target removes the other variable's value from the
/// target's domain once the other variable's domain is a singleton.
#[derive(Debug, Clone)]
pub struct NotEqualConstraint {
    /// The two variables constrained to differ.
    pub vars: Vec<VariableId>,
}

impl NotEqualConstraint {
    /// Creates a new constraint enforcing `?a != ?b`.
    pub fn new(a: VariableId, b: VariableId) -> (r: Self)
        ensures
            r.vars@ == seq![a, b],
            r.wf() <==> a != b,
    {
        let r = NotEqualConstraint { vars: vec![a, b] };
        proof {
            assert(r.vars@ =~= seq![a, b]);
        }
        r
    }

    /// The other variable of the pair.
    pub open spec fn other_spec(&self, target: VariableId) -> VariableId {
        if target == self.vars@[0] {
            self.vars@[1]
        } else {
            self.vars@[0]
        }
    }
}

impl Constraint for NotEqualConstraint {
    open spec fn vars_spec(&self) -> Seq<VariableId> {
        self.vars@
    }

    open spec fn wf(&self) -> bool {
        self.vars@.len() == 2 && self.vars@[0] != self.vars@[1]
    }

    open spec fn priority_spec(&self) -> ConstraintPriority {
        priority::NORMAL
    }

    open spec fn keep_set(
        &self,
        target: VariableId,
        doms: Map<VariableId, Set<StandardValue>>,
    ) -> Set<StandardValue> {
        let other_dom = doms[self.other_spec(target)];
        if other_dom.finite() && other_dom.len() == 1 {
            Set::new(|v: StandardValue| !other_dom.contains(v))
        } else {
            Set::new(|v: StandardValue| true)
        }
    }

    open spec fn revise_err(
        &self,
        target: VariableId,
        doms: Map<VariableId, Set<StandardValue>>,
    ) -> bool {
        !self.vars_spec().contains(target)
    }

    proof fn lemma_keep_frame(
        &self,
        target: VariableId,
        d1: Map<VariableId, Set<StandardValue>>,
        d2: Map<VariableId, Set<StandardValue>>,
    ) {
        let other = self.other_spec(target);
        assert(self.vars_spec().contains(other)) by {
            if target == self.vars@[0] {
                assert(self.vars_spec()[1] == other);
            } else {
                assert(self.vars_spec()[0] == other);
            }
        }
        assert(other != target);
        assert(d1[other] == d2[other]);
    }


    proof fn lemma_keep_antitone(
        &self,
        target: VariableId,
        d1: Map<VariableId, Set<StandardValue>>,
        d2: Map<VariableId, Set<StandardValue>>,
    ) {
        let other = self.other_spec(target);
        assert(self.vars_spec().contains(other)) by {
            if target == self.vars@[0] {
                assert(self.vars_spec()[1] == other);
            } else {
                assert(self.vars_spec()[0] == other);
            }
        }
        if d1[other].finite() && d1[other].len() == 1 {
            vstd::set_lib::lemma_subset_equality(d2[other], d1[other]);
        } else {
            assert forall|v: StandardValue|
                self.keep_set(target, d2).contains(v) implies self.keep_set(
                target,
                d1,
            ).contains(v) by {}
        }
    }

    fn variables(&self) -> (r: &Vec<VariableId>) {
        &self.vars
    }

    fn priority(&self) -> (r: ConstraintPriority) {
        priority::NORMAL
    }

    fn descriptor(&self) -> ConstraintDescriptor {
        let mut description = String::new();
        if self.vars.len() >= 2 {
            push_var(&mut description, self.vars[0]);
            push_str(&mut description, " != ");
            push_var(&mut description, self.vars[1]);
        }
        ConstraintDescriptor { name: string_of("NotEqualConstraint"), description }
    }

    fn revise(&self, target_var: &VariableId, solution: &Solution) -> (r: Result<
        Option<Solution>,
        Error,
    >) {
        let target = *target_var;
        if !contains_var(&self.vars, target) {
            proof {
                assert(!self.vars_spec().contains(target));
            }
            return Err(foreign_target_error("NotEqualConstraint", target));
        }
        proof {
            assert(self.vars_spec().contains(target));
        }
        let other = if target == self.vars[0] {
            self.vars[1]
        } else {
            self.vars[0]
        };
        proof {
            assert(other == self.other_spec(target));
            assert(self.vars_spec().contains(other)) by {
                if target == self.vars@[0] {
                    assert(self.vars_spec()[1] == other);
                } else {
                    assert(self.vars_spec()[0] == other);
                }
            }
        }
        let other_dom = solution.get_domain(other).unwrap();
        let ghost keep = self.keep_set(target, solution.doms());
        if !other_dom.is_singleton() {
            proof {
                assert(solution.doms()[target].subset_of(keep));
            }
            return Ok(None);
        }
        let value_to_remove = other_dom.get_singleton_value().unwrap();
        let target_dom = solution.get_domain(target).unwrap();
        let rem = vec![value_to_remove];
        let new_dom = target_dom.remove_values(&rem);
        proof {
            assert(rem@.to_set() =~= solution.doms()[other]);
            assert(new_dom@ =~= solution.doms()[target].intersect(keep));
        }
        Ok(finish_revise(solution, target, new_dom, Ghost(keep)))
    }
}

} // verus!
