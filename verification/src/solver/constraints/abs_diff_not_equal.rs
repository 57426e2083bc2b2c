//! A constraint that enforces `abs(X - Y) != C`.

use vstd::prelude::*;

use crate::error::{Error, SolverError};
use crate::solver::constraint::{
    contains_var, finish_revise, foreign_target_error, priority, push_str, push_var, string_of, Constraint, ConstraintDescriptor,
    ConstraintPriority,
};
use crate::solver::engine::VariableId;
use crate::solver::solution::{DomainRepresentation, Solution};
use crate::solver::value::{StandardValue, ValueArithmetic};

verus! {

broadcast use vstd::seq_lib::lemma_seq_contains_after_push;

/// Enforces `abs(?x - ?y) != c`.
///
/// Once one variable becomes a singleton `{o}`, the values `o + c` and
/// `o - c` are pruned from the other variable's domain. Applying the
/// arithmetic to values that do not support it is a programming error,
/// reported through the error arm.
#[derive(Debug, Clone)]
pub struct AbsoluteDifferenceNotEqualConstraint {
    /// The two variables whose absolute difference is constrained.
    pub vars: Vec<VariableId>,
    /// The difference that the two variables may not have.
    pub c: StandardValue,
}

impl AbsoluteDifferenceNotEqualConstraint {
    /// Creates a new constraint enforcing `abs(?x - ?y) != c`.
    pub fn new(x: VariableId, y: VariableId, c: StandardValue) -> (r: Self)
        ensures
            r.vars@ == seq![x, y],
            r.c == c,
            r.wf() <==> x != y,
    {
        let r = AbsoluteDifferenceNotEqualConstraint { vars: vec![x, y], c };
        proof {
            assert(r.vars@ =~= seq![x, y]);
        }
        r
    }

    /// The other variable of the pair.
    pub open spec fn other_spec(&self, target: VariableId) -> VariableId {
        if target == self.vars@[0] {
            self.vars@[1]
        } else {
            self.vars@[0]
        }
    }

    /// A set holding exactly one value.
    pub open spec fn is_singleton_set(s: Set<StandardValue>) -> bool {
        s.finite() && s.len() == 1
    }

    /// Whether `v` is one of the two values pruned when the other
    /// variable is pinned to a value of `od`.
    pub open spec fn pruned_value(&self, od: Set<StandardValue>, v: StandardValue) -> bool {
        exists|o: StandardValue| #[trigger]
            od.contains(o) && (o.add_spec(self.c) == Some(v) || o.sub_spec(self.c) == Some(v))
    }
}

impl Constraint for AbsoluteDifferenceNotEqualConstraint {
    open spec fn vars_spec(&self) -> Seq<VariableId> {
        self.vars@
    }

    open spec fn wf(&self) -> bool {
        self.vars@.len() == 2 && self.vars@[0] != self.vars@[1]
    }

    open spec fn priority_spec(&self) -> ConstraintPriority {
        priority::NORMAL
    }

    open spec fn keep_set(
        &self,
        target: VariableId,
        doms: Map<VariableId, Set<StandardValue>>,
    ) -> Set<StandardValue> {
        let od = doms[self.other_spec(target)];
        if Self::is_singleton_set(od) {
            Set::new(|v: StandardValue| !self.pruned_value(od, v))
        } else {
            Set::new(|v: StandardValue| true)
        }
    }

    open spec fn revise_err(
        &self,
        target: VariableId,
        doms: Map<VariableId, Set<StandardValue>>,
    ) -> bool {
        let od = doms[self.other_spec(target)];
        !self.vars_spec().contains(target) || (Self::is_singleton_set(od)
            && exists|o: StandardValue| #[trigger]
            od.contains(o) && (o.add_spec(self.c) is None || o.sub_spec(self.c) is None))
    }

    proof fn lemma_keep_frame(
        &self,
        target: VariableId,
        d1: Map<VariableId, Set<StandardValue>>,
        d2: Map<VariableId, Set<StandardValue>>,
    ) {
        let other = self.other_spec(target);
        assert(self.vars_spec().contains(other)) by {
            if target == self.vars@[0] {
                assert(self.vars_spec()[1] == other);
            } else {
                assert(self.vars_spec()[0] == other);
            }
        }
        assert(other != target);
        assert(d1[other] == d2[other]);
    }


    proof fn lemma_keep_antitone(
        &self,
        target: VariableId,
        d1: Map<VariableId, Set<StandardValue>>,
        d2: Map<VariableId, Set<StandardValue>>,
    ) {
        let other = self.other_spec(target);
        assert(self.vars_spec().contains(other)) by {
            if target == self.vars@[0] {
                assert(self.vars_spec()[1] == other);
            } else {
                assert(self.vars_spec()[0] == other);
            }
        }
        if Self::is_singleton_set(d1[other]) {
            vstd::set_lib::lemma_subset_equality(d2[other], d1[other]);
        } else {
            assert forall|v: StandardValue|
                self.keep_set(target, d2).contains(v) implies self.keep_set(
                target,
                d1,
            ).contains(v) by {}
        }
    }

    fn variables(&self) -> (r: &Vec<VariableId>) {
        &self.vars
    }

    fn priority(&self) -> (r: ConstraintPriority) {
        priority::NORMAL
    }

    fn descriptor(&self) -> ConstraintDescriptor {
        let mut description = String::new();
        if self.vars.len() >= 2 {
            push_str(&mut description, "abs(");
            push_var(&mut description, self.vars[0]);
            push_str(&mut description, " - ");
            push_var(&mut description, self.vars[1]);
            push_str(&mut description, ") != 1");
        }
        ConstraintDescriptor { name: string_of("AbsDiffNotEqualConstraint"), description }
    }

    fn revise(&self, target_var: &VariableId, solution: &Solution) -> (r: Result<
        Option<Solution>,
        Error,
    >) {
        let target = *target_var;
        if !contains_var(&self.vars, target) {
            proof {
                assert(!self.vars_spec().contains(target));
            }
            return Err(foreign_target_error("AbsDiffNotEqualConstraint", target));
        }
        proof {
            assert(self.vars_spec().contains(target));
        }
        let other = if target == self.vars[0] {
            self.vars[1]
        } else {
            self.vars[0]
        };
        proof {
            assert(other == self.other_spec(target));
            assert(self.vars_spec().contains(other)) by {
                if target == self.vars@[0] {
                    assert(self.vars_spec()[1] == other);
                } else {
                    assert(self.vars_spec()[0] == other);
                }
            }
        }
        let ghost doms = solution.doms();
        let ghost keep = self.keep_set(target, doms);
        let other_dom = solution.get_domain(other).unwrap();
        if !other_dom.is_singleton() {
            proof {
                assert(doms[target].subset_of(keep));
            }
            return Ok(None);
        }
        let other_value = other_dom.get_singleton_value().unwrap();
        let up = other_value.add(&self.c);
        let down = other_value.sub(&self.c);
        if up.is_none() || down.is_none() {
            proof {
                assert(doms[other].contains(other_value));
            }
            return Err(
                Error::from_solver(
                    SolverError::Custom(
                        string_of("AbsDiffNotEqualConstraint applied to unsupported values"),
                    ),
                ),
            );
        }
        proof {
            assert(!self.revise_err(target, doms)) by {
                if self.revise_err(target, doms) {
                    let o = choose|o: StandardValue| #[trigger]
                        doms[other].contains(o) && (o.add_spec(self.c) is None || o.sub_spec(
                            self.c,
                        ) is None);
                    assert(o == other_value);
                }
            }
        }
        let value_to_remove1 = up.unwrap();
        let value_to_remove2 = down.unwrap();
        let rem = vec![value_to_remove1, value_to_remove2];
        let target_dom = solution.get_domain(target).unwrap();
        let new_dom = target_dom.remove_values(&rem);
        proof {
            assert(rem@.to_set() =~= Set::new(
                |v: StandardValue| self.pruned_value(doms[other], v),
            )) by {
                assert(rem@ == seq![value_to_remove1, value_to_remove2]);
                assert(rem@.contains(value_to_remove1) && rem@.contains(value_to_remove2)) by {
                    assert(rem@[0] == value_to_remove1 && rem@[1] == value_to_remove2);
                }
                assert forall|v: StandardValue| rem@.contains(v) implies self.pruned_value(
                    doms[other],
                    v,
                ) by {
                    assert(doms[other].contains(other_value));
                }
                assert forall|v: StandardValue|
                    self.pruned_value(doms[other], v) implies rem@.contains(v) by {
                    let o = choose|o: StandardValue| #[trigger]
                        doms[other].contains(o) && (o.add_spec(self.c) == Some(v) || o.sub_spec(
                            self.c,
                        ) == Some(v));
                    assert(o == other_value);
                }
            }
            assert(new_dom@ =~= doms[target].intersect(keep));
        }
        Ok(finish_revise(solution, target, new_dom, Ghost(keep)))
    }
}

} // verus!
