//! A constraint that reifies a disjunction: `B_out <==> (B1 OR B2 OR ...)`.

use vstd::prelude::*;

use crate::error::Error;
use crate::solver::constraint::{
    contains_var, copy_vars, finish_revise, foreign_target_error, priority, push_str, push_var, string_of, Constraint,
    ConstraintDescriptor, ConstraintPriority,
};
use crate::solver::constraints::boolean_or::pinned_to;
use crate::solver::engine::VariableId;
use crate::solver::solution::{lemma_pinned_is_singleton, DomainRepresentation, Solution};
use crate::solver::value::StandardValue;

verus! {

/// Enforces `?b_out <==> (?b1 OR ?b2 OR ...)`.
#[derive(Debug, Clone)]
pub struct ReifiedOrConstraint {
    /// The boolean variable reifying the disjunction.
    pub b_out: VariableId,
    /// The boolean inputs of the disjunction.
    pub b_in: Vec<VariableId>,
    /// All variables: the inputs followed by the output.
    pub all_vars: Vec<VariableId>,
}

impl ReifiedOrConstraint {
    /// Creates a new constraint enforcing `?b_out <==> OR(?b_in)`.
    pub fn new(b_out: VariableId, b_in: Vec<VariableId>) -> (r: Self)
        ensures
            r.b_out == b_out,
            r.b_in == b_in,
            r.all_vars@ == b_in@.push(b_out),
            r.wf() <==> !b_in@.contains(b_out),
    {
        let mut all_vars = copy_vars(&b_in);
        all_vars.push(b_out);
        ReifiedOrConstraint { b_out, b_in, all_vars }
    }

    /// Whether some input is already pinned to `true`.
    pub open spec fn some_input_true(&self, doms: Map<VariableId, Set<StandardValue>>) -> bool {
        exists|j: int|
            0 <= j < self.b_in@.len() && pinned_to(
                doms[self.b_in@[j]],
                StandardValue::Bool(true),
            )
    }

    /// Whether every input is pinned to `false`.
    pub open spec fn all_inputs_false(&self, doms: Map<VariableId, Set<StandardValue>>) -> bool {
        forall|j: int|
            0 <= j < self.b_in@.len() ==> pinned_to(
                doms[self.b_in@[j]],
                StandardValue::Bool(false),
            )
    }
}

impl Constraint for ReifiedOrConstraint {
    open spec fn vars_spec(&self) -> Seq<VariableId> {
        self.all_vars@
    }

    open spec fn wf(&self) -> bool {
        self.all_vars@ == self.b_in@.push(self.b_out) && !self.b_in@.contains(self.b_out)
    }

    open spec fn priority_spec(&self) -> ConstraintPriority {
        priority::NORMAL
    }

    open spec fn keep_set(
        &self,
        target: VariableId,
        doms: Map<VariableId, Set<StandardValue>>,
    ) -> Set<StandardValue> {
        if target == self.b_out {
            if self.some_input_true(doms) {
                Set::empty().insert(StandardValue::Bool(true))
            } else if self.all_inputs_false(doms) {
                Set::empty().insert(StandardValue::Bool(false))
            } else {
                Set::new(|v: StandardValue| true)
            }
        } else {
            if pinned_to(doms[self.b_out], StandardValue::Bool(false)) {
                Set::empty().insert(StandardValue::Bool(false))
            } else {
                Set::new(|v: StandardValue| true)
            }
        }
    }

    open spec fn revise_err(
        &self,
        target: VariableId,
        doms: Map<VariableId, Set<StandardValue>>,
    ) -> bool {
        !self.vars_spec().contains(target)
    }

    proof fn lemma_keep_frame(
        &self,
        target: VariableId,
        d1: Map<VariableId, Set<StandardValue>>,
        d2: Map<VariableId, Set<StandardValue>>,
    ) {
        assert(self.vars_spec()[self.b_in@.len() as int] == self.b_out);
        assert(self.vars_spec().contains(self.b_out));
        if target == self.b_out {
            assert forall|j: int| 0 <= j < self.b_in@.len() implies d1[self.b_in@[j]]
                == d2[self.b_in@[j]] by {
                assert(self.vars_spec()[j] == self.b_in@[j]);
                assert(self.vars_spec().contains(self.b_in@[j]));
            }
            assert(self.some_input_true(d1) == self.some_input_true(d2)) by {
                if self.some_input_true(d1) {
                    let j = choose|j: int|
                        0 <= j < self.b_in@.len() && pinned_to(
                            d1[self.b_in@[j]],
                            StandardValue::Bool(true),
                        );
                    assert(pinned_to(d2[self.b_in@[j]], StandardValue::Bool(true)));
                }
                if self.some_input_true(d2) {
                    let j = choose|j: int|
                        0 <= j < self.b_in@.len() && pinned_to(
                            d2[self.b_in@[j]],
                            StandardValue::Bool(true),
                        );
                    assert(pinned_to(d1[self.b_in@[j]], StandardValue::Bool(true)));
                }
            }
            assert(self.all_inputs_false(d1) == self.all_inputs_false(d2));
        } else {
            assert(d1[self.b_out] == d2[self.b_out]);
        }
    }


    proof fn lemma_keep_antitone(
        &self,
        target: VariableId,
        d1: Map<VariableId, Set<StandardValue>>,
        d2: Map<VariableId, Set<StandardValue>>,
    ) {
        assert(self.vars_spec()[self.b_in@.len() as int] == self.b_out);
        assert(self.vars_spec().contains(self.b_out));
        assert forall|j: int| 0 <= j < self.b_in@.len() implies self.vars_spec().contains(
            self.b_in@[j],
        ) by {
            assert(self.vars_spec()[j] == self.b_in@[j]);
        }
        if target == self.b_out {
            if self.some_input_true(d1) {
                let j = choose|j: int|
                    0 <= j < self.b_in@.len() && pinned_to(
                        d1[self.b_in@[j]],
                        StandardValue::Bool(true),
                    );
                vstd::set_lib::lemma_subset_equality(d2[self.b_in@[j]], d1[self.b_in@[j]]);
                assert(self.some_input_true(d2));
            } else if self.all_inputs_false(d1) {
                assert forall|j: int| 0 <= j < self.b_in@.len() implies pinned_to(
                    d2[self.b_in@[j]],
                    StandardValue::Bool(false),
                ) by {
                    vstd::set_lib::lemma_subset_equality(d2[self.b_in@[j]], d1[self.b_in@[j]]);
                }
                assert(!self.some_input_true(d2)) by {
                    if self.some_input_true(d2) {
                        let j = choose|j: int|
                            0 <= j < self.b_in@.len() && pinned_to(
                                d2[self.b_in@[j]],
                                StandardValue::Bool(true),
                            );
                        lemma_pinned_is_singleton(d2[self.b_in@[j]], StandardValue::Bool(true));
                        assert(d2[self.b_in@[j]].contains(StandardValue::Bool(false)));
                    }
                }
            } else {
                assert forall|v: StandardValue|
                    self.keep_set(target, d2).contains(v) implies self.keep_set(
                    target,
                    d1,
                ).contains(v) by {}
            }
        } else {
            if pinned_to(d1[self.b_out], StandardValue::Bool(false)) {
                vstd::set_lib::lemma_subset_equality(d2[self.b_out], d1[self.b_out]);
            } else {
                assert forall|v: StandardValue|
                    self.keep_set(target, d2).contains(v) implies self.keep_set(
                    target,
                    d1,
                ).contains(v) by {}
            }
        }
    }

    fn variables(&self) -> (r: &Vec<VariableId>) {
        &self.all_vars
    }

    fn priority(&self) -> (r: ConstraintPriority) {
        priority::NORMAL
    }

    #[verifier::loop_isolation(false)]
    fn descriptor(&self) -> ConstraintDescriptor {
        let mut description = String::new();
        push_var(&mut description, self.b_out);
        push_str(&mut description, " <==> (");
        let mut i: usize = 0;
        while i < self.b_in.len()
            decreases self.b_in@.len() - i,
        {
            if i > 0 {
                push_str(&mut description, " OR ");
            }
            push_var(&mut description, self.b_in[i]);
            i += 1;
        }
        push_str(&mut description, ")");
        ConstraintDescriptor { name: string_of("ReifiedOrConstraint"), description }
    }

    #[verifier::loop_isolation(false)]
    fn revise(&self, target_var: &VariableId, solution: &Solution) -> (r: Result<
        Option<Solution>,
        Error,
    >) {
        let target = *target_var;
        if !contains_var(&self.all_vars, target) {
            proof {
                assert(!self.vars_spec().contains(target));
            }
            return Err(foreign_target_error("ReifiedOrConstraint", target));
        }
        proof {
            assert(self.vars_spec().contains(target));
        }
        let ghost doms = solution.doms();
        let ghost keep = self.keep_set(target, doms);
        proof {
            assert(self.vars_spec()[self.b_in@.len() as int] == self.b_out);
            assert(self.vars_spec().contains(self.b_out));
        }
        if target == self.b_out {
            let mut any_true = false;
            let mut all_false = true;
            let mut j: usize = 0;
            while j < self.b_in.len()
                invariant
                    j <= self.b_in@.len(),
                    any_true <==> exists|jj: int|
                        0 <= jj < j && pinned_to(
                            doms[self.b_in@[jj]],
                            StandardValue::Bool(true),
                        ),
                    all_false <==> forall|jj: int|
                        0 <= jj < j ==> pinned_to(
                            doms[self.b_in@[jj]],
                            StandardValue::Bool(false),
                        ),
                decreases self.b_in@.len() - j,
            {
                let var = self.b_in[j];
                proof {
                    assert(self.vars_spec()[j as int] == var);
                    assert(self.vars_spec().contains(var));
                }
                let d = solution.get_domain(var).unwrap();
                let mut this_true = false;
                let mut this_false = false;
                if d.is_singleton() {
                    let v = d.get_singleton_value().unwrap();
                    if v == StandardValue::Bool(true) {
                        this_true = true;
                    }
                    if v == StandardValue::Bool(false) {
                        this_false = true;
                    }
                }
                proof {
                    assert(this_true == pinned_to(doms[var], StandardValue::Bool(true)));
                    assert(this_false == pinned_to(doms[var], StandardValue::Bool(false)));
                }
                if this_true {
                    any_true = true;
                }
                if !this_false {
                    all_false = false;
                }
                j += 1;
            }
            proof {
                assert(any_true == self.some_input_true(doms));
                assert(all_false == self.all_inputs_false(doms));
            }
            let b_out_dom = solution.get_domain(self.b_out).unwrap();
            if any_true {
                let keep_vals = vec![StandardValue::Bool(true)];
                let new_dom = b_out_dom.retain_values(&keep_vals);
                proof {
                    assert(keep_vals@.to_set() =~= Set::empty().insert(
                        StandardValue::Bool(true),
                    )) by {
                        assert(keep_vals@[0] == StandardValue::Bool(true));
                        assert(keep_vals@.contains(StandardValue::Bool(true)));
                    }
                    assert(new_dom@ =~= doms[target].intersect(keep));
                }
                return Ok(finish_revise(solution, target, new_dom, Ghost(keep)));
            }
            if all_false {
                let keep_vals = vec![StandardValue::Bool(false)];
                let new_dom = b_out_dom.retain_values(&keep_vals);
                proof {
                    assert(keep_vals@.to_set() =~= Set::empty().insert(
                        StandardValue::Bool(false),
                    )) by {
                        assert(keep_vals@[0] == StandardValue::Bool(false));
                        assert(keep_vals@.contains(StandardValue::Bool(false)));
                    }
                    assert(new_dom@ =~= doms[target].intersect(keep));
                }
                return Ok(finish_revise(solution, target, new_dom, Ghost(keep)));
            }
            proof {
                assert(doms[target].subset_of(keep));
            }
            return Ok(None);
        }
        let b_out_dom = solution.get_domain(self.b_out).unwrap();
        let mut out_false = false;
        if b_out_dom.is_singleton() {
            let v = b_out_dom.get_singleton_value().unwrap();
            if v == StandardValue::Bool(false) {
                out_false = true;
            }
        }
        proof {
            assert(out_false == pinned_to(doms[self.b_out], StandardValue::Bool(false)));
        }
        if out_false {
            let target_dom = solution.get_domain(target).unwrap();
            let keep_vals = vec![StandardValue::Bool(false)];
            let new_dom = target_dom.retain_values(&keep_vals);
            proof {
                assert(keep_vals@.to_set() =~= Set::empty().insert(StandardValue::Bool(false)))
                    by {
                    assert(keep_vals@[0] == StandardValue::Bool(false));
                    assert(keep_vals@.contains(StandardValue::Bool(false)));
                }
                assert(new_dom@ =~= doms[target].intersect(keep));
            }
            return Ok(finish_revise(solution, target, new_dom, Ghost(keep)));
        }
        proof {
            assert(doms[target].subset_of(keep));
        }
        Ok(None)
    }
}

} // verus!
