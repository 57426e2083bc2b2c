//! A constraint that ensures all variables in a set have distinct
//! values.

use vstd::prelude::*;

use crate::error::Error;
use crate::solver::constraint::{
    contains_var, finish_revise, foreign_target_error, priority, push_str, push_var, string_of, Constraint, ConstraintDescriptor,
    ConstraintPriority,
};
use crate::solver::engine::VariableId;
use crate::solver::solution::{DomainRepresentation, Solution};
use crate::solver::value::StandardValue;

verus! {

broadcast use vstd::seq_lib::lemma_seq_contains_after_push;

/// Enforces that all listed variables take pairwise distinct values.
///
/// Consistency is achieved by waiting for a variable in the set to
/// become a singleton, and then pruning that value from the domains of
/// the other variables in the set.
#[derive(Debug, Clone)]
pub struct AllDifferentConstraint {
    /// The variables constrained to be pairwise distinct.
    pub vars: Vec<VariableId>,
}

/// A set holding exactly one value.
pub open spec fn is_singleton_set(s: Set<StandardValue>) -> bool {
    s.finite() && s.len() == 1
}

impl AllDifferentConstraint {
    /// Creates a new constraint over the given set of variables.
    pub fn new(vars: Vec<VariableId>) -> (r: Self)
        ensures
            r.vars == vars,
            r.wf(),
    {
        AllDifferentConstraint { vars }
    }

    /// Whether a value is pinned by a singleton domain of a variable
    /// of the constraint other than the target.
    pub open spec fn fixed_elsewhere(
        &self,
        target: VariableId,
        doms: Map<VariableId, Set<StandardValue>>,
        v: StandardValue,
    ) -> bool {
        exists|j: int|
            0 <= j < self.vars@.len() && self.vars@[j] != target && is_singleton_set(
                doms[self.vars@[j]],
            ) && doms[self.vars@[j]].contains(v)
    }
}

impl Constraint for AllDifferentConstraint {
    open spec fn vars_spec(&self) -> Seq<VariableId> {
        self.vars@
    }

    open spec fn wf(&self) -> bool {
        true
    }

    open spec fn priority_spec(&self) -> ConstraintPriority {
        priority::NORMAL
    }

    open spec fn keep_set(
        &self,
        target: VariableId,
        doms: Map<VariableId, Set<StandardValue>>,
    ) -> Set<StandardValue> {
        Set::new(|v: StandardValue| !self.fixed_elsewhere(target, doms, v))
    }

    open spec fn revise_err(
        &self,
        target: VariableId,
        doms: Map<VariableId, Set<StandardValue>>,
    ) -> bool {
        !self.vars_spec().contains(target)
    }

    proof fn lemma_keep_frame(
        &self,
        target: VariableId,
        d1: Map<VariableId, Set<StandardValue>>,
        d2: Map<VariableId, Set<StandardValue>>,
    ) {
        assert forall|v: StandardValue|
            self.fixed_elsewhere(target, d1, v) == self.fixed_elsewhere(target, d2, v) by {
            if self.fixed_elsewhere(target, d1, v) {
                let j = choose|j: int|
                    0 <= j < self.vars@.len() && self.vars@[j] != target && is_singleton_set(
                        d1[self.vars@[j]],
                    ) && d1[self.vars@[j]].contains(v);
                assert(self.vars_spec().contains(self.vars@[j]));
                assert(d2[self.vars@[j]] == d1[self.vars@[j]]);
                assert(self.fixed_elsewhere(target, d2, v));
            }
            if self.fixed_elsewhere(target, d2, v) {
                let j = choose|j: int|
                    0 <= j < self.vars@.len() && self.vars@[j] != target && is_singleton_set(
                        d2[self.vars@[j]],
                    ) && d2[self.vars@[j]].contains(v);
                assert(self.vars_spec().contains(self.vars@[j]));
                assert(d1[self.vars@[j]] == d2[self.vars@[j]]);
                assert(self.fixed_elsewhere(target, d1, v));
            }
        }
        assert(self.keep_set(target, d1) =~= self.keep_set(target, d2));
    }


    proof fn lemma_keep_antitone(
        &self,
        target: VariableId,
        d1: Map<VariableId, Set<StandardValue>>,
        d2: Map<VariableId, Set<StandardValue>>,
    ) {
        assert forall|v: StandardValue|
            self.keep_set(target, d2).contains(v) implies self.keep_set(target, d1).contains(
            v,
        ) by {
            if self.fixed_elsewhere(target, d1, v) {
                let j = choose|j: int|
                    0 <= j < self.vars@.len() && self.vars@[j] != target && is_singleton_set(
                        d1[self.vars@[j]],
                    ) && d1[self.vars@[j]].contains(v);
                assert(self.vars_spec().contains(self.vars@[j]));
                vstd::set_lib::lemma_subset_equality(d2[self.vars@[j]], d1[self.vars@[j]]);
                assert(self.fixed_elsewhere(target, d2, v));
            }
        }
    }

    fn variables(&self) -> (r: &Vec<VariableId>) {
        &self.vars
    }

    fn priority(&self) -> (r: ConstraintPriority) {
        priority::NORMAL
    }

    #[verifier::loop_isolation(false)]
    fn descriptor(&self) -> ConstraintDescriptor {
        let mut description = String::new();
        push_str(&mut description, "AllDifferent(");
        let mut i: usize = 0;
        while i < self.vars.len()
            decreases self.vars@.len() - i,
        {
            if i > 0 {
                push_str(&mut description, ", ");
            }
            push_var(&mut description, self.vars[i]);
            i += 1;
        }
        push_str(&mut description, ")");
        ConstraintDescriptor { name: string_of("AllDifferentConstraint"), description }
    }

    #[verifier::loop_isolation(false)]
    fn revise(&self, target_var: &VariableId, solution: &Solution) -> (r: Result<
        Option<Solution>,
        Error,
    >) {
        let target = *target_var;
        if !contains_var(&self.vars, target) {
            proof {
                assert(!self.vars_spec().contains(target));
            }
            return Err(foreign_target_error("AllDifferentConstraint", target));
        }
        proof {
            assert(self.vars_spec().contains(target));
        }
        let ghost doms = solution.doms();
        let mut fixed: Vec<StandardValue> = Vec::new();
        let mut j: usize = 0;
        while j < self.vars.len()
            invariant
                j <= self.vars@.len(),
                forall|v: StandardValue| #[trigger]
                    fixed@.contains(v) ==> self.fixed_elsewhere(target, doms, v),
                forall|jj: int, v: StandardValue|
                    0 <= jj < j && self.vars@[jj] != target && is_singleton_set(
                        doms[self.vars@[jj]],
                    ) && doms[self.vars@[jj]].contains(v) ==> fixed@.contains(v),
            decreases self.vars@.len() - j,
        {
            let var = self.vars[j];
            proof {
                assert(self.vars_spec().contains(var));
            }
            if var != target {
                let d = solution.get_domain(var).unwrap();
                if d.is_singleton() {
                    let v = d.get_singleton_value().unwrap();
                    proof {
                        assert(doms[var].contains(v));
                        assert(self.fixed_elsewhere(target, doms, v));
                        assert forall|vv: StandardValue|
                            doms[self.vars@[j as int]].contains(vv) implies fixed@.push(
                            v,
                        ).contains(vv) by {
                            assert(vv == v);
                        }
                    }
                    fixed.push(v);
                }
            }
            j += 1;
        }
        let ghost keep = self.keep_set(target, doms);
        let target_dom = solution.get_domain(target).unwrap();
        let new_dom = target_dom.remove_values(&fixed);
        proof {
            assert(fixed@.to_set() =~= Set::new(
                |v: StandardValue| self.fixed_elsewhere(target, doms, v),
            ));
            assert(new_dom@ =~= doms[target].intersect(keep));
        }
        Ok(finish_revise(solution, target, new_dom, Ghost(keep)))
    }
}

} // verus!
