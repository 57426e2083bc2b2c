//! A constraint that reifies a conjunction: `B_out <==> (B1 AND B2 AND ...)`.

use vstd::prelude::*;

use crate::error::Error;
use crate::solver::constraint::{
    contains_var, copy_vars, finish_revise, foreign_target_error, priority, push_str, push_var, string_of, Constraint,
    ConstraintDescriptor, ConstraintPriority,
};
use crate::solver::constraints::boolean_or::pinned_to;
use crate::solver::engine::VariableId;
use crate::solver::solution::{lemma_pinned_is_singleton, DomainRepresentation, Solution};
use crate::solver::value::StandardValue;

verus! {

/// Enforces `?b_out <==> (?b1 AND ?b2 AND ...)`.
#[derive(Debug, Clone)]
pub struct ReifiedAndConstraint {
    /// The boolean variable reifying the conjunction.
    pub b_out: VariableId,
    /// The boolean inputs of the conjunction.
    pub b_in: Vec<VariableId>,
    /// All variables: the inputs followed by the output.
    pub all_vars: Vec<VariableId>,
}

impl ReifiedAndConstraint {
    /// Creates a new constraint enforcing `?b_out <==> AND(?b_in)`.
    pub fn new(b_out: VariableId, b_in: Vec<VariableId>) -> (r: Self)
        ensures
            r.b_out == b_out,
            r.b_in == b_in,
            r.all_vars@ == b_in@.push(b_out),
            r.wf() <==> !b_in@.contains(b_out),
    {
        let mut all_vars = copy_vars(&b_in);
        all_vars.push(b_out);
        ReifiedAndConstraint { b_out, b_in, all_vars }
    }

    /// Whether some input is already pinned to `false`.
    pub open spec fn some_input_false(&self, doms: Map<VariableId, Set<StandardValue>>) -> bool {
        exists|j: int|
            0 <= j < self.b_in@.len() && pinned_to(
                doms[self.b_in@[j]],
                StandardValue::Bool(false),
            )
    }

    /// Whether every input is pinned to `true`.
    pub open spec fn all_inputs_true(&self, doms: Map<VariableId, Set<StandardValue>>) -> bool {
        forall|j: int|
            0 <= j < self.b_in@.len() ==> pinned_to(
                doms[self.b_in@[j]],
                StandardValue::Bool(true),
            )
    }
}

impl Constraint for ReifiedAndConstraint {
    open spec fn vars_spec(&self) -> Seq<VariableId> {
        self.all_vars@
    }

    open spec fn wf(&self) -> bool {
        self.all_vars@ == self.b_in@.push(self.b_out) && !self.b_in@.contains(self.b_out)
    }

    open spec fn priority_spec(&self) -> ConstraintPriority {
        priority::NORMAL
    }

    open spec fn keep_set(
        &self,
        target: VariableId,
        doms: Map<VariableId, Set<StandardValue>>,
    ) -> Set<StandardValue> {
        if target == self.b_out {
            if self.some_input_false(doms) {
                Set::empty().insert(StandardValue::Bool(false))
            } else if self.all_inputs_true(doms) {
                Set::empty().insert(StandardValue::Bool(true))
            } else {
                Set::new(|v: StandardValue| true)
            }
        } else {
            if pinned_to(doms[self.b_out], StandardValue::Bool(true)) {
                Set::empty().insert(StandardValue::Bool(true))
            } else {
                Set::new(|v: StandardValue| true)
            }
        }
    }

    open spec fn revise_err(
        &self,
        target: VariableId,
        doms: Map<VariableId, Set<StandardValue>>,
    ) -> bool {
        !self.vars_spec().contains(target)
    }

    proof fn lemma_keep_frame(
        &self,
        target: VariableId,
        d1: Map<VariableId, Set<StandardValue>>,
        d2: Map<VariableId, Set<StandardValue>>,
    ) {
        assert(self.vars_spec()[self.b_in@.len() as int] == self.b_out);
        assert(self.vars_spec().contains(self.b_out));
        if target == self.b_out {
            assert forall|j: int| 0 <= j < self.b_in@.len() implies d1[self.b_in@[j]]
                == d2[self.b_in@[j]] by {
                assert(self.vars_spec()[j] == self.b_in@[j]);
                assert(self.vars_spec().contains(self.b_in@[j]));
            }
            assert(self.some_input_false(d1) == self.some_input_false(d2)) by {
                if self.some_input_false(d1) {
                    let j = choose|j: int|
                        0 <= j < self.b_in@.len() && pinned_to(
                            d1[self.b_in@[j]],
                            StandardValue::Bool(false),
                        );
                    assert(pinned_to(d2[self.b_in@[j]], StandardValue::Bool(false)));
                }
                if self.some_input_false(d2) {
                    let j = choose|j: int|
                        0 <= j < self.b_in@.len() && pinned_to(
                            d2[self.b_in@[j]],
                            StandardValue::Bool(false),
                        );
                    assert(pinned_to(d1[self.b_in@[j]], StandardValue::Bool(false)));
                }
            }
            assert(self.all_inputs_true(d1) == self.all_inputs_true(d2));
        } else {
            assert(d1[self.b_out] == d2[self.b_out]);
        }
    }


    proof fn lemma_keep_antitone(
        &self,
        target: VariableId,
        d1: Map<VariableId, Set<StandardValue>>,
        d2: Map<VariableId, Set<StandardValue>>,
    ) {
        assert(self.vars_spec()[self.b_in@.len() as int] == self.b_out);
        assert(self.vars_spec().contains(self.b_out));
        assert forall|j: int| 0 <= j < self.b_in@.len() implies self.vars_spec().contains(
            self.b_in@[j],
        ) by {
            assert(self.vars_spec()[j] == self.b_in@[j]);
        }
        if target == self.b_out {
            if self.some_input_false(d1) {
                let j = choose|j: int|
                    0 <= j < self.b_in@.len() && pinned_to(
                        d1[self.b_in@[j]],
                        StandardValue::Bool(false),
                    );
                vstd::set_lib::lemma_subset_equality(d2[self.b_in@[j]], d1[self.b_in@[j]]);
                assert(self.some_input_false(d2));
            } else if self.all_inputs_true(d1) {
                assert forall|j: int| 0 <= j < self.b_in@.len() implies pinned_to(
                    d2[self.b_in@[j]],
                    StandardValue::Bool(true),
                ) by {
                    vstd::set_lib::lemma_subset_equality(d2[self.b_in@[j]], d1[self.b_in@[j]]);
                }
                assert(!self.some_input_false(d2)) by {
                    if self.some_input_false(d2) {
                        let j = choose|j: int|
                            0 <= j < self.b_in@.len() && pinned_to(
                                d2[self.b_in@[j]],
                                StandardValue::Bool(false),
                            );
                        lemma_pinned_is_singleton(d2[self.b_in@[j]], StandardValue::Bool(false));
                        assert(d2[self.b_in@[j]].contains(StandardValue::Bool(true)));
                    }
                }
            } else {
                assert forall|v: StandardValue|
                    self.keep_set(target, d2).contains(v) implies self.keep_set(
                    target,
                    d1,
                ).contains(v) by {}
            }
        } else {
            if pinned_to(d1[self.b_out], StandardValue::Bool(true)) {
                vstd::set_lib::lemma_subset_equality(d2[self.b_out], d1[self.b_out]);
            } else {
                assert forall|v: StandardValue|
                    self.keep_set(target, d2).contains(v) implies self.keep_set(
                    target,
                    d1,
                ).contains(v) by {}
            }
        }
    }

    fn variables(&self) -> (r: &Vec<VariableId>) {
        &self.all_vars
    }

    fn priority(&self) -> (r: ConstraintPriority) {
        priority::NORMAL
    }

    #[verifier::loop_isolation(false)]
    fn descriptor(&self) -> ConstraintDescriptor {
        let mut description = String::new();
        push_var(&mut description, self.b_out);
        push_str(&mut description, " <==> (");
        let mut i: usize = 0;
        while i < self.b_in.len()
            decreases self.b_in@.len() - i,
        {
            if i > 0 {
                push_str(&mut description, " AND ");
            }
            push_var(&mut description, self.b_in[i]);
            i += 1;
        }
        push_str(&mut description, ")");
        ConstraintDescriptor { name: string_of("ReifiedAndConstraint"), description }
    }

    #[verifier::loop_isolation(false)]
    fn revise(&self, target_var: &VariableId, solution: &Solution) -> (r: Result<
        Option<Solution>,
        Error,
    >) {
        let target = *target_var;
        if !contains_var(&self.all_vars, target) {
            proof {
                assert(!self.vars_spec().contains(target));
            }
            return Err(foreign_target_error("ReifiedAndConstraint", target));
        }
        proof {
            assert(self.vars_spec().contains(target));
        }
        let ghost doms = solution.doms();
        let ghost keep = self.keep_set(target, doms);
        proof {
            assert(self.vars_spec()[self.b_in@.len() as int] == self.b_out);
            assert(self.vars_spec().contains(self.b_out));
        }
        if target == self.b_out {
            let mut any_false = false;
            let mut all_true = true;
            let mut j: usize = 0;
            while j < self.b_in.len()
                invariant
                    j <= self.b_in@.len(),
                    any_false <==> exists|jj: int|
                        0 <= jj < j && pinned_to(
                            doms[self.b_in@[jj]],
                            StandardValue::Bool(false),
                        ),
                    all_true <==> forall|jj: int|
                        0 <= jj < j ==> pinned_to(
                            doms[self.b_in@[jj]],
                            StandardValue::Bool(true),
                        ),
                decreases self.b_in@.len() - j,
            {
                let var = self.b_in[j];
                proof {
                    assert(self.vars_spec()[j as int] == var);
                    assert(self.vars_spec().contains(var));
                }
                let d = solution.get_domain(var).unwrap();
                let mut this_false = false;
                let mut this_true = false;
                if d.is_singleton() {
                    let v = d.get_singleton_value().unwrap();
                    if v == StandardValue::Bool(false) {
                        this_false = true;
                    }
                    if v == StandardValue::Bool(true) {
                        this_true = true;
                    }
                }
                proof {
                    assert(this_false == pinned_to(doms[var], StandardValue::Bool(false)));
                    assert(this_true == pinned_to(doms[var], StandardValue::Bool(true)));
                }
                if this_false {
                    any_false = true;
                }
                if !this_true {
                    all_true = false;
                }
                j += 1;
            }
            proof {
                assert(any_false == self.some_input_false(doms));
                assert(all_true == self.all_inputs_true(doms));
            }
            let b_out_dom = solution.get_domain(self.b_out).unwrap();
            if any_false {
                let keep_vals = vec![StandardValue::Bool(false)];
                let new_dom = b_out_dom.retain_values(&keep_vals);
                proof {
                    assert(keep_vals@.to_set() =~= Set::empty().insert(
                        StandardValue::Bool(false),
                    )) by {
                        assert(keep_vals@[0] == StandardValue::Bool(false));
                        assert(keep_vals@.contains(StandardValue::Bool(false)));
                    }
                    assert(new_dom@ =~= doms[target].intersect(keep));
                }
                return Ok(finish_revise(solution, target, new_dom, Ghost(keep)));
            }
            if all_true {
                let keep_vals = vec![StandardValue::Bool(true)];
                let new_dom = b_out_dom.retain_values(&keep_vals);
                proof {
                    assert(keep_vals@.to_set() =~= Set::empty().insert(
                        StandardValue::Bool(true),
                    )) by {
                        assert(keep_vals@[0] == StandardValue::Bool(true));
                        assert(keep_vals@.contains(StandardValue::Bool(true)));
                    }
                    assert(new_dom@ =~= doms[target].intersect(keep));
                }
                return Ok(finish_revise(solution, target, new_dom, Ghost(keep)));
            }
            proof {
                assert(doms[target].subset_of(keep));
            }
            return Ok(None);
        }
        let b_out_dom = solution.get_domain(self.b_out).unwrap();
        let mut out_true = false;
        if b_out_dom.is_singleton() {
            let v = b_out_dom.get_singleton_value().unwrap();
            if v == StandardValue::Bool(true) {
                out_true = true;
            }
        }
        proof {
            assert(out_true == pinned_to(doms[self.b_out], StandardValue::Bool(true)));
        }
        if out_true {
            let target_dom = solution.get_domain(target).unwrap();
            let keep_vals = vec![StandardValue::Bool(true)];
            let new_dom = target_dom.retain_values(&keep_vals);
            proof {
                assert(keep_vals@.to_set() =~= Set::empty().insert(StandardValue::Bool(true)))
                    by {
                    assert(keep_vals@[0] == StandardValue::Bool(true));
                    assert(keep_vals@.contains(StandardValue::Bool(true)));
                }
                assert(new_dom@ =~= doms[target].intersect(keep));
            }
            return Ok(finish_revise(solution, target, new_dom, Ghost(keep)));
        }
        proof {
            assert(doms[target].subset_of(keep));
        }
        Ok(None)
    }
}

} // verus!
