//! The catalogue of built-in constraints, and the sum type that lets a
//! single solve mix them.

use vstd::prelude::*;

use crate::error::Error;
use crate::solver::constraint::{Constraint, ConstraintDescriptor, ConstraintPriority};
use crate::solver::engine::VariableId;
use crate::solver::solution::Solution;
use crate::solver::value::StandardValue;

pub mod abs_diff_not_equal;
pub mod all_different;
pub mod boolean_or;
pub mod equal;
pub mod not_equal;
pub mod reified_and;
pub mod reified_equal;
pub mod reified_member_of;
pub mod reified_or;
pub mod sum_of;

use abs_diff_not_equal::AbsoluteDifferenceNotEqualConstraint;
use all_different::AllDifferentConstraint;
use boolean_or::BooleanOrConstraint;
use equal::EqualConstraint;
use not_equal::NotEqualConstraint;
use reified_and::ReifiedAndConstraint;
use reified_equal::ReifiedEqualConstraint;
use reified_member_of::ReifiedMemberOfConstraint;
use reified_or::ReifiedOrConstraint;
use sum_of::SumOfConstraint;

verus! {

/// One constraint of the built-in catalogue. A problem holds a vector
/// of these; each delegates to the wrapped constraint.
#[derive(Debug, Clone)]
pub enum StandardConstraint {
    /// Equality of two variables.
    Equal(EqualConstraint),
    /// Inequality of two variables.
    NotEqual(NotEqualConstraint),
    /// Pairwise distinctness over a set of variables.
    AllDifferent(AllDifferentConstraint),
    /// A forbidden absolute difference between two variables.
    AbsDiffNotEqual(AbsoluteDifferenceNotEqualConstraint),
    /// A sum relationship between term variables and a sum variable.
    SumOf(SumOfConstraint),
    /// A disjunction over boolean variables.
    BooleanOr(BooleanOrConstraint),
    /// A reified equality.
    ReifiedEqual(ReifiedEqualConstraint),
    /// A reified disjunction.
    ReifiedOr(ReifiedOrConstraint),
    /// A reified conjunction.
    ReifiedAnd(ReifiedAndConstraint),
    /// A reified table membership.
    ReifiedMemberOf(ReifiedMemberOfConstraint),
}

impl Constraint for StandardConstraint {
    open spec fn vars_spec(&self) -> Seq<VariableId> {
        match self {
            StandardConstraint::Equal(c) => c.vars_spec(),
            StandardConstraint::NotEqual(c) => c.vars_spec(),
            StandardConstraint::AllDifferent(c) => c.vars_spec(),
            StandardConstraint::AbsDiffNotEqual(c) => c.vars_spec(),
            StandardConstraint::SumOf(c) => c.vars_spec(),
            StandardConstraint::BooleanOr(c) => c.vars_spec(),
            StandardConstraint::ReifiedEqual(c) => c.vars_spec(),
            StandardConstraint::ReifiedOr(c) => c.vars_spec(),
            StandardConstraint::ReifiedAnd(c) => c.vars_spec(),
            StandardConstraint::ReifiedMemberOf(c) => c.vars_spec(),
        }
    }

    open spec fn wf(&self) -> bool {
        match self {
            StandardConstraint::Equal(c) => c.wf(),
            StandardConstraint::NotEqual(c) => c.wf(),
            StandardConstraint::AllDifferent(c) => c.wf(),
            StandardConstraint::AbsDiffNotEqual(c) => c.wf(),
            StandardConstraint::SumOf(c) => c.wf(),
            StandardConstraint::BooleanOr(c) => c.wf(),
            StandardConstraint::ReifiedEqual(c) => c.wf(),
            StandardConstraint::ReifiedOr(c) => c.wf(),
            StandardConstraint::ReifiedAnd(c) => c.wf(),
            StandardConstraint::ReifiedMemberOf(c) => c.wf(),
        }
    }

    open spec fn priority_spec(&self) -> ConstraintPriority {
        match self {
            StandardConstraint::Equal(c) => c.priority_spec(),
            StandardConstraint::NotEqual(c) => c.priority_spec(),
            StandardConstraint::AllDifferent(c) => c.priority_spec(),
            StandardConstraint::AbsDiffNotEqual(c) => c.priority_spec(),
            StandardConstraint::SumOf(c) => c.priority_spec(),
            StandardConstraint::BooleanOr(c) => c.priority_spec(),
            StandardConstraint::ReifiedEqual(c) => c.priority_spec(),
            StandardConstraint::ReifiedOr(c) => c.priority_spec(),
            StandardConstraint::ReifiedAnd(c) => c.priority_spec(),
            StandardConstraint::ReifiedMemberOf(c) => c.priority_spec(),
        }
    }

    open spec fn keep_set(
        &self,
        target: VariableId,
        doms: Map<VariableId, Set<StandardValue>>,
    ) -> Set<StandardValue> {
        match self {
            StandardConstraint::Equal(c) => c.keep_set(target, doms),
            StandardConstraint::NotEqual(c) => c.keep_set(target, doms),
            StandardConstraint::AllDifferent(c) => c.keep_set(target, doms),
            StandardConstraint::AbsDiffNotEqual(c) => c.keep_set(target, doms),
            StandardConstraint::SumOf(c) => c.keep_set(target, doms),
            StandardConstraint::BooleanOr(c) => c.keep_set(target, doms),
            StandardConstraint::ReifiedEqual(c) => c.keep_set(target, doms),
            StandardConstraint::ReifiedOr(c) => c.keep_set(target, doms),
            StandardConstraint::ReifiedAnd(c) => c.keep_set(target, doms),
            StandardConstraint::ReifiedMemberOf(c) => c.keep_set(target, doms),
        }
    }

    open spec fn revise_err(
        &self,
        target: VariableId,
        doms: Map<VariableId, Set<StandardValue>>,
    ) -> bool {
        match self {
            StandardConstraint::Equal(c) => c.revise_err(target, doms),
            StandardConstraint::NotEqual(c) => c.revise_err(target, doms),
            StandardConstraint::AllDifferent(c) => c.revise_err(target, doms),
            StandardConstraint::AbsDiffNotEqual(c) => c.revise_err(target, doms),
            StandardConstraint::SumOf(c) => c.revise_err(target, doms),
            StandardConstraint::BooleanOr(c) => c.revise_err(target, doms),
            StandardConstraint::ReifiedEqual(c) => c.revise_err(target, doms),
            StandardConstraint::ReifiedOr(c) => c.revise_err(target, doms),
            StandardConstraint::ReifiedAnd(c) => c.revise_err(target, doms),
            StandardConstraint::ReifiedMemberOf(c) => c.revise_err(target, doms),
        }
    }

    proof fn lemma_keep_frame(
        &self,
        target: VariableId,
        d1: Map<VariableId, Set<StandardValue>>,
        d2: Map<VariableId, Set<StandardValue>>,
    ) {
        match self {
            StandardConstraint::Equal(c) => {
                assert forall|v: VariableId|
                    c.vars_spec().contains(v) && v != target implies d1.dom().contains(v)
                    && d2.dom().contains(v) && d1[v] == d2[v] by {
                    assert(self.vars_spec().contains(v));
                }
                assert(c.vars_spec().contains(target));
                c.lemma_keep_frame(target, d1, d2);
            },
            StandardConstraint::NotEqual(c) => {
                assert forall|v: VariableId|
                    c.vars_spec().contains(v) && v != target implies d1.dom().contains(v)
                    && d2.dom().contains(v) && d1[v] == d2[v] by {
                    assert(self.vars_spec().contains(v));
                }
                assert(c.vars_spec().contains(target));
                c.lemma_keep_frame(target, d1, d2);
            },
            StandardConstraint::AllDifferent(c) => {
                assert forall|v: VariableId|
                    c.vars_spec().contains(v) && v != target implies d1.dom().contains(v)
                    && d2.dom().contains(v) && d1[v] == d2[v] by {
                    assert(self.vars_spec().contains(v));
                }
                assert(c.vars_spec().contains(target));
                c.lemma_keep_frame(target, d1, d2);
            },
            StandardConstraint::AbsDiffNotEqual(c) => {
                assert forall|v: VariableId|
                    c.vars_spec().contains(v) && v != target implies d1.dom().contains(v)
                    && d2.dom().contains(v) && d1[v] == d2[v] by {
                    assert(self.vars_spec().contains(v));
                }
                assert(c.vars_spec().contains(target));
                c.lemma_keep_frame(target, d1, d2);
            },
            StandardConstraint::SumOf(c) => {
                assert forall|v: VariableId|
                    c.vars_spec().contains(v) && v != target implies d1.dom().contains(v)
                    && d2.dom().contains(v) && d1[v] == d2[v] by {
                    assert(self.vars_spec().contains(v));
                }
                assert(c.vars_spec().contains(target));
                c.lemma_keep_frame(target, d1, d2);
            },
            StandardConstraint::BooleanOr(c) => {
                assert forall|v: VariableId|
                    c.vars_spec().contains(v) && v != target implies d1.dom().contains(v)
                    && d2.dom().contains(v) && d1[v] == d2[v] by {
                    assert(self.vars_spec().contains(v));
                }
                assert(c.vars_spec().contains(target));
                c.lemma_keep_frame(target, d1, d2);
            },
            StandardConstraint::ReifiedEqual(c) => {
                assert forall|v: VariableId|
                    c.vars_spec().contains(v) && v != target implies d1.dom().contains(v)
                    && d2.dom().contains(v) && d1[v] == d2[v] by {
                    assert(self.vars_spec().contains(v));
                }
                assert(c.vars_spec().contains(target));
                c.lemma_keep_frame(target, d1, d2);
            },
            StandardConstraint::ReifiedOr(c) => {
                assert forall|v: VariableId|
                    c.vars_spec().contains(v) && v != target implies d1.dom().contains(v)
                    && d2.dom().contains(v) && d1[v] == d2[v] by {
                    assert(self.vars_spec().contains(v));
                }
                assert(c.vars_spec().contains(target));
                c.lemma_keep_frame(target, d1, d2);
            },
            StandardConstraint::ReifiedAnd(c) => {
                assert forall|v: VariableId|
                    c.vars_spec().contains(v) && v != target implies d1.dom().contains(v)
                    && d2.dom().contains(v) && d1[v] == d2[v] by {
                    assert(self.vars_spec().contains(v));
                }
                assert(c.vars_spec().contains(target));
                c.lemma_keep_frame(target, d1, d2);
            },
            StandardConstraint::ReifiedMemberOf(c) => {
                assert forall|v: VariableId|
                    c.vars_spec().contains(v) && v != target implies d1.dom().contains(v)
                    && d2.dom().contains(v) && d1[v] == d2[v] by {
                    assert(self.vars_spec().contains(v));
                }
                assert(c.vars_spec().contains(target));
                c.lemma_keep_frame(target, d1, d2);
            },
        }
    }

    proof fn lemma_keep_antitone(
        &self,
        target: VariableId,
        d1: Map<VariableId, Set<StandardValue>>,
        d2: Map<VariableId, Set<StandardValue>>,
    ) {
        match self {
            StandardConstraint::Equal(c) => {
                assert forall|v: VariableId|
                    c.vars_spec().contains(v) implies d1.dom().contains(v) && d2.dom().contains(
                    v,
                ) && d2[v].subset_of(d1[v]) && d2[v].finite() && d2[v].len() == 1 by {
                    assert(self.vars_spec().contains(v));
                }
                assert(c.vars_spec().contains(target));
                c.lemma_keep_antitone(target, d1, d2);
            },
            StandardConstraint::NotEqual(c) => {
                assert forall|v: VariableId|
                    c.vars_spec().contains(v) implies d1.dom().contains(v) && d2.dom().contains(
                    v,
                ) && d2[v].subset_of(d1[v]) && d2[v].finite() && d2[v].len() == 1 by {
                    assert(self.vars_spec().contains(v));
                }
                assert(c.vars_spec().contains(target));
                c.lemma_keep_antitone(target, d1, d2);
            },
            StandardConstraint::AllDifferent(c) => {
                assert forall|v: VariableId|
                    c.vars_spec().contains(v) implies d1.dom().contains(v) && d2.dom().contains(
                    v,
                ) && d2[v].subset_of(d1[v]) && d2[v].finite() && d2[v].len() == 1 by {
                    assert(self.vars_spec().contains(v));
                }
                assert(c.vars_spec().contains(target));
                c.lemma_keep_antitone(target, d1, d2);
            },
            StandardConstraint::AbsDiffNotEqual(c) => {
                assert forall|v: VariableId|
                    c.vars_spec().contains(v) implies d1.dom().contains(v) && d2.dom().contains(
                    v,
                ) && d2[v].subset_of(d1[v]) && d2[v].finite() && d2[v].len() == 1 by {
                    assert(self.vars_spec().contains(v));
                }
                assert(c.vars_spec().contains(target));
                c.lemma_keep_antitone(target, d1, d2);
            },
            StandardConstraint::SumOf(c) => {
                assert forall|v: VariableId|
                    c.vars_spec().contains(v) implies d1.dom().contains(v) && d2.dom().contains(
                    v,
                ) && d2[v].subset_of(d1[v]) && d2[v].finite() && d2[v].len() == 1 by {
                    assert(self.vars_spec().contains(v));
                }
                assert(c.vars_spec().contains(target));
                c.lemma_keep_antitone(target, d1, d2);
            },
            StandardConstraint::BooleanOr(c) => {
                assert forall|v: VariableId|
                    c.vars_spec().contains(v) implies d1.dom().contains(v) && d2.dom().contains(
                    v,
                ) && d2[v].subset_of(d1[v]) && d2[v].finite() && d2[v].len() == 1 by {
                    assert(self.vars_spec().contains(v));
                }
                assert(c.vars_spec().contains(target));
                c.lemma_keep_antitone(target, d1, d2);
            },
            StandardConstraint::ReifiedEqual(c) => {
                assert forall|v: VariableId|
                    c.vars_spec().contains(v) implies d1.dom().contains(v) && d2.dom().contains(
                    v,
                ) && d2[v].subset_of(d1[v]) && d2[v].finite() && d2[v].len() == 1 by {
                    assert(self.vars_spec().contains(v));
                }
                assert(c.vars_spec().contains(target));
                c.lemma_keep_antitone(target, d1, d2);
            },
            StandardConstraint::ReifiedOr(c) => {
                assert forall|v: VariableId|
                    c.vars_spec().contains(v) implies d1.dom().contains(v) && d2.dom().contains(
                    v,
                ) && d2[v].subset_of(d1[v]) && d2[v].finite() && d2[v].len() == 1 by {
                    assert(self.vars_spec().contains(v));
                }
                assert(c.vars_spec().contains(target));
                c.lemma_keep_antitone(target, d1, d2);
            },
            StandardConstraint::ReifiedAnd(c) => {
                assert forall|v: VariableId|
                    c.vars_spec().contains(v) implies d1.dom().contains(v) && d2.dom().contains(
                    v,
                ) && d2[v].subset_of(d1[v]) && d2[v].finite() && d2[v].len() == 1 by {
                    assert(self.vars_spec().contains(v));
                }
                assert(c.vars_spec().contains(target));
                c.lemma_keep_antitone(target, d1, d2);
            },
            StandardConstraint::ReifiedMemberOf(c) => {
                assert forall|v: VariableId|
                    c.vars_spec().contains(v) implies d1.dom().contains(v) && d2.dom().contains(
                    v,
                ) && d2[v].subset_of(d1[v]) && d2[v].finite() && d2[v].len() == 1 by {
                    assert(self.vars_spec().contains(v));
                }
                assert(c.vars_spec().contains(target));
                c.lemma_keep_antitone(target, d1, d2);
            },
        }
    }

    fn variables(&self) -> (r: &Vec<VariableId>) {
        match self {
            StandardConstraint::Equal(c) => c.variables(),
            StandardConstraint::NotEqual(c) => c.variables(),
            StandardConstraint::AllDifferent(c) => c.variables(),
            StandardConstraint::AbsDiffNotEqual(c) => c.variables(),
            StandardConstraint::SumOf(c) => c.variables(),
            StandardConstraint::BooleanOr(c) => c.variables(),
            StandardConstraint::ReifiedEqual(c) => c.variables(),
            StandardConstraint::ReifiedOr(c) => c.variables(),
            StandardConstraint::ReifiedAnd(c) => c.variables(),
            StandardConstraint::ReifiedMemberOf(c) => c.variables(),
        }
    }

    fn priority(&self) -> (r: ConstraintPriority) {
        match self {
            StandardConstraint::Equal(c) => c.priority(),
            StandardConstraint::NotEqual(c) => c.priority(),
            StandardConstraint::AllDifferent(c) => c.priority(),
            StandardConstraint::AbsDiffNotEqual(c) => c.priority(),
            StandardConstraint::SumOf(c) => c.priority(),
            StandardConstraint::BooleanOr(c) => c.priority(),
            StandardConstraint::ReifiedEqual(c) => c.priority(),
            StandardConstraint::ReifiedOr(c) => c.priority(),
            StandardConstraint::ReifiedAnd(c) => c.priority(),
            StandardConstraint::ReifiedMemberOf(c) => c.priority(),
        }
    }

    fn descriptor(&self) -> ConstraintDescriptor {
        match self {
            StandardConstraint::Equal(c) => c.descriptor(),
            StandardConstraint::NotEqual(c) => c.descriptor(),
            StandardConstraint::AllDifferent(c) => c.descriptor(),
            StandardConstraint::AbsDiffNotEqual(c) => c.descriptor(),
            StandardConstraint::SumOf(c) => c.descriptor(),
            StandardConstraint::BooleanOr(c) => c.descriptor(),
            StandardConstraint::ReifiedEqual(c) => c.descriptor(),
            StandardConstraint::ReifiedOr(c) => c.descriptor(),
            StandardConstraint::ReifiedAnd(c) => c.descriptor(),
            StandardConstraint::ReifiedMemberOf(c) => c.descriptor(),
        }
    }

    fn revise(&self, target_var: &VariableId, solution: &Solution) -> (r: Result<
        Option<Solution>,
        Error,
    >) {
        match self {
            StandardConstraint::Equal(c) => {
                proof {
                    assert forall|v: VariableId|
                        c.vars_spec().contains(v) implies solution.doms().dom().contains(v) by {
                        assert(self.vars_spec().contains(v));
                    }
                }
                c.revise(target_var, solution)
            },
            StandardConstraint::NotEqual(c) => {
                proof {
                    assert forall|v: VariableId|
                        c.vars_spec().contains(v) implies solution.doms().dom().contains(v) by {
                        assert(self.vars_spec().contains(v));
                    }
                }
                c.revise(target_var, solution)
            },
            StandardConstraint::AllDifferent(c) => {
                proof {
                    assert forall|v: VariableId|
                        c.vars_spec().contains(v) implies solution.doms().dom().contains(v) by {
                        assert(self.vars_spec().contains(v));
                    }
                }
                c.revise(target_var, solution)
            },
            StandardConstraint::AbsDiffNotEqual(c) => {
                proof {
                    assert forall|v: VariableId|
                        c.vars_spec().contains(v) implies solution.doms().dom().contains(v) by {
                        assert(self.vars_spec().contains(v));
                    }
                }
                c.revise(target_var, solution)
            },
            StandardConstraint::SumOf(c) => {
                proof {
                    assert forall|v: VariableId|
                        c.vars_spec().contains(v) implies solution.doms().dom().contains(v) by {
                        assert(self.vars_spec().contains(v));
                    }
                }
                c.revise(target_var, solution)
            },
            StandardConstraint::BooleanOr(c) => {
                proof {
                    assert forall|v: VariableId|
                        c.vars_spec().contains(v) implies solution.doms().dom().contains(v) by {
                        assert(self.vars_spec().contains(v));
                    }
                }
                c.revise(target_var, solution)
            },
            StandardConstraint::ReifiedEqual(c) => {
                proof {
                    assert forall|v: VariableId|
                        c.vars_spec().contains(v) implies solution.doms().dom().contains(v) by {
                        assert(self.vars_spec().contains(v));
                    }
                }
                c.revise(target_var, solution)
            },
            StandardConstraint::ReifiedOr(c) => {
                proof {
                    assert forall|v: VariableId|
                        c.vars_spec().contains(v) implies solution.doms().dom().contains(v) by {
                        assert(self.vars_spec().contains(v));
                    }
                }
                c.revise(target_var, solution)
            },
            StandardConstraint::ReifiedAnd(c) => {
                proof {
                    assert forall|v: VariableId|
                        c.vars_spec().contains(v) implies solution.doms().dom().contains(v) by {
                        assert(self.vars_spec().contains(v));
                    }
                }
                c.revise(target_var, solution)
            },
            StandardConstraint::ReifiedMemberOf(c) => {
                proof {
                    assert forall|v: VariableId|
                        c.vars_spec().contains(v) implies solution.doms().dom().contains(v) by {
                        assert(self.vars_spec().contains(v));
                    }
                }
                c.revise(target_var, solution)
            },
        }
    }
}

} // verus!
