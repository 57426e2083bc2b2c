//! A constraint that enforces a logical OR over boolean variables.

use vstd::prelude::*;

use crate::error::Error;
use crate::solver::constraint::{
    contains_var, finish_revise, foreign_target_error, priority, push_str, push_var, string_of, Constraint, ConstraintDescriptor,
    ConstraintPriority,
};
use crate::solver::engine::VariableId;
use crate::solver::solution::{lemma_pinned_is_singleton, DomainRepresentation, Solution};
use crate::solver::value::StandardValue;

verus! {

/// A set pinned to exactly the given value.
pub open spec fn pinned_to(s: Set<StandardValue>, v: StandardValue) -> bool {
    s.finite() && s.len() == 1 && s.contains(v)
}

/// Enforces `?b1 OR ?b2 OR ... OR ?bn`.
///
/// When every variable but one is pinned to `false` and the OR is not
/// yet satisfied, the remaining variable is forced to `true`.
#[derive(Debug, Clone)]
pub struct BooleanOrConstraint {
    /// The boolean variables, at least one of which must be true.
    pub vars: Vec<VariableId>,
}

impl BooleanOrConstraint {
    /// Creates a new constraint enforcing the disjunction of the given
    /// variables.
    pub fn new(vars: Vec<VariableId>) -> (r: Self)
        ensures
            r.vars == vars,
            r.wf() <==> vars@.no_duplicates(),
    {
        BooleanOrConstraint { vars }
    }

    /// Whether some variable of the constraint other than the target
    /// is already pinned to `true`.
    pub open spec fn other_is_true(
        &self,
        target: VariableId,
        doms: Map<VariableId, Set<StandardValue>>,
    ) -> bool {
        exists|j: int|
            0 <= j < self.vars@.len() && self.vars@[j] != target && pinned_to(
                doms[self.vars@[j]],
                StandardValue::Bool(true),
            )
    }

    /// Whether every variable of the constraint other than the target
    /// is pinned to `false`.
    pub open spec fn others_all_false(
        &self,
        target: VariableId,
        doms: Map<VariableId, Set<StandardValue>>,
    ) -> bool {
        forall|j: int|
            0 <= j < self.vars@.len() && self.vars@[j] != target ==> pinned_to(
                doms[self.vars@[j]],
                StandardValue::Bool(false),
            )
    }
}

impl Constraint for BooleanOrConstraint {
    open spec fn vars_spec(&self) -> Seq<VariableId> {
        self.vars@
    }

    open spec fn wf(&self) -> bool {
        self.vars@.no_duplicates()
    }

    open spec fn priority_spec(&self) -> ConstraintPriority {
        priority::NORMAL
    }

    open spec fn keep_set(
        &self,
        target: VariableId,
        doms: Map<VariableId, Set<StandardValue>>,
    ) -> Set<StandardValue> {
        if !self.other_is_true(target, doms) && self.others_all_false(target, doms) {
            Set::empty().insert(StandardValue::Bool(true))
        } else {
            Set::new(|v: StandardValue| true)
        }
    }

    open spec fn revise_err(
        &self,
        target: VariableId,
        doms: Map<VariableId, Set<StandardValue>>,
    ) -> bool {
        !self.vars_spec().contains(target)
    }

    proof fn lemma_keep_frame(
        &self,
        target: VariableId,
        d1: Map<VariableId, Set<StandardValue>>,
        d2: Map<VariableId, Set<StandardValue>>,
    ) {
        assert forall|j: int|
            0 <= j < self.vars@.len() && self.vars@[j] != target implies d1[self.vars@[j]]
            == d2[self.vars@[j]] by {
            assert(self.vars_spec().contains(self.vars@[j]));
        }
        assert(self.other_is_true(target, d1) == self.other_is_true(target, d2)) by {
            if self.other_is_true(target, d1) {
                let j = choose|j: int|
                    0 <= j < self.vars@.len() && self.vars@[j] != target && pinned_to(
                        d1[self.vars@[j]],
                        StandardValue::Bool(true),
                    );
                assert(pinned_to(d2[self.vars@[j]], StandardValue::Bool(true)));
            }
            if self.other_is_true(target, d2) {
                let j = choose|j: int|
                    0 <= j < self.vars@.len() && self.vars@[j] != target && pinned_to(
                        d2[self.vars@[j]],
                        StandardValue::Bool(true),
                    );
                assert(pinned_to(d1[self.vars@[j]], StandardValue::Bool(true)));
            }
        }
        assert(self.others_all_false(target, d1) == self.others_all_false(target, d2));
    }


    proof fn lemma_keep_antitone(
        &self,
        target: VariableId,
        d1: Map<VariableId, Set<StandardValue>>,
        d2: Map<VariableId, Set<StandardValue>>,
    ) {
        if !self.other_is_true(target, d1) && self.others_all_false(target, d1) {
            assert forall|j: int|
                0 <= j < self.vars@.len() && self.vars@[j] != target implies pinned_to(
                d2[self.vars@[j]],
                StandardValue::Bool(false),
            ) by {
                assert(self.vars_spec().contains(self.vars@[j]));
                vstd::set_lib::lemma_subset_equality(d2[self.vars@[j]], d1[self.vars@[j]]);
            }
            assert(!self.other_is_true(target, d2)) by {
                if self.other_is_true(target, d2) {
                    let j = choose|j: int|
                        0 <= j < self.vars@.len() && self.vars@[j] != target && pinned_to(
                            d2[self.vars@[j]],
                            StandardValue::Bool(true),
                        );
                    lemma_pinned_is_singleton(d2[self.vars@[j]], StandardValue::Bool(true));
                    assert(d2[self.vars@[j]].contains(StandardValue::Bool(false)));
                }
            }
        } else {
            assert forall|v: StandardValue|
                self.keep_set(target, d2).contains(v) implies self.keep_set(
                target,
                d1,
            ).contains(v) by {}
        }
    }

    fn variables(&self) -> (r: &Vec<VariableId>) {
        &self.vars
    }

    fn priority(&self) -> (r: ConstraintPriority) {
        priority::NORMAL
    }

    #[verifier::loop_isolation(false)]
    fn descriptor(&self) -> ConstraintDescriptor {
        let mut description = String::new();
        let mut i: usize = 0;
        while i < self.vars.len()
            decreases self.vars@.len() - i,
        {
            if i > 0 {
                push_str(&mut description, " OR ");
            }
            push_var(&mut description, self.vars[i]);
            i += 1;
        }
        ConstraintDescriptor { name: string_of("BooleanOrConstraint"), description }
    }

    #[verifier::loop_isolation(false)]
    fn revise(&self, target_var: &VariableId, solution: &Solution) -> (r: Result<
        Option<Solution>,
        Error,
    >) {
        let target = *target_var;
        if !contains_var(&self.vars, target) {
            proof {
                assert(!self.vars_spec().contains(target));
            }
            return Err(foreign_target_error("BooleanOrConstraint", target));
        }
        proof {
            assert(self.vars_spec().contains(target));
        }
        let ghost doms = solution.doms();
        let ghost keep = self.keep_set(target, doms);
        let mut j: usize = 0;
        let mut all_false = true;
        while j < self.vars.len()
            invariant
                j <= self.vars@.len(),
                forall|jj: int|
                    0 <= jj < j && self.vars@[jj] != target ==> !pinned_to(
                        doms[self.vars@[jj]],
                        StandardValue::Bool(true),
                    ),
                all_false <==> forall|jj: int|
                    0 <= jj < j && self.vars@[jj] != target ==> pinned_to(
                        doms[self.vars@[jj]],
                        StandardValue::Bool(false),
                    ),
            decreases self.vars@.len() - j,
        {
            let var = self.vars[j];
            proof {
                assert(self.vars_spec().contains(var));
            }
            if var != target {
                let d = solution.get_domain(var).unwrap();
                if d.is_singleton() {
                    let v = d.get_singleton_value().unwrap();
                    if v == StandardValue::Bool(true) {
                        proof {
                            assert(pinned_to(doms[var], StandardValue::Bool(true)));
                            assert(self.other_is_true(target, doms));
                            assert(doms[target].subset_of(keep));
                        }
                        return Ok(None);
                    }
                    if v != StandardValue::Bool(false) {
                        all_false = false;
                    }
                } else {
                    all_false = false;
                }
            }
            j += 1;
        }
        if !all_false {
            proof {
                assert(doms[target].subset_of(keep));
            }
            return Ok(None);
        }
        proof {
            assert(self.others_all_false(target, doms));
            assert(!self.other_is_true(target, doms)) by {
                if self.other_is_true(target, doms) {
                    let jj = choose|jj: int|
                        0 <= jj < self.vars@.len() && self.vars@[jj] != target && pinned_to(
                            doms[self.vars@[jj]],
                            StandardValue::Bool(true),
                        );
                    assert(!pinned_to(doms[self.vars@[jj]], StandardValue::Bool(true)));
                }
            }
        }
        let target_dom = solution.get_domain(target).unwrap();
        let keep_vals = vec![StandardValue::Bool(true)];
        let new_dom = target_dom.retain_values(&keep_vals);
        proof {
            assert(keep_vals@.to_set() =~= Set::empty().insert(StandardValue::Bool(true))) by {
                assert(keep_vals@[0] == StandardValue::Bool(true));
                assert(keep_vals@.contains(StandardValue::Bool(true)));
            }
            assert(new_dom@ =~= doms[target].intersect(keep));
        }
        Ok(finish_revise(solution, target, new_dom, Ghost(keep)))
    }
}

} // verus!
