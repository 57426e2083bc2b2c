//! A constraint that enforces a sum relationship: `Σ(terms) = sum`.

use vstd::prelude::*;

use crate::error::{Error, SolverError};
use crate::solver::constraint::{
    contains_var, copy_vars, finish_revise, foreign_target_error, priority, push_str, push_var, string_of, Constraint,
    ConstraintDescriptor, ConstraintPriority,
};
use crate::solver::engine::VariableId;
use crate::solver::solution::{
    lemma_pinned_is_singleton, lemma_sv_le_antisym, lemma_sv_le_total, lemma_sv_le_trans,
    sv_interval, DomainRepresentation, Solution,
};
use crate::solver::value::{sv_le, StandardValue, ValueArithmetic};

verus! {

/// The unique least value of a nonempty finite set of values.
pub open spec fn set_min(s: Set<StandardValue>) -> StandardValue {
    choose|m: StandardValue|
        s.contains(m) && forall|v: StandardValue| #[trigger] s.contains(v) ==> sv_le(m, v)
}

/// The unique greatest value of a nonempty finite set of values.
pub open spec fn set_max(s: Set<StandardValue>) -> StandardValue {
    choose|m: StandardValue|
        s.contains(m) && forall|v: StandardValue| #[trigger] s.contains(v) ==> sv_le(v, m)
}

/// A value with the least-element property is the set's minimum.
pub proof fn lemma_set_min_is(s: Set<StandardValue>, m: StandardValue)
    requires
        s.contains(m),
        forall|v: StandardValue| #[trigger] s.contains(v) ==> sv_le(m, v),
    ensures
        set_min(s) == m,
{
    let m2 = set_min(s);
    assert(s.contains(m2) && forall|v: StandardValue| #[trigger] s.contains(v) ==> sv_le(m2, v));
    lemma_sv_le_antisym(m, m2);
}

/// A value with the greatest-element property is the set's maximum.
pub proof fn lemma_set_max_is(s: Set<StandardValue>, m: StandardValue)
    requires
        s.contains(m),
        forall|v: StandardValue| #[trigger] s.contains(v) ==> sv_le(v, m),
    ensures
        set_max(s) == m,
{
    let m2 = set_max(s);
    assert(s.contains(m2) && forall|v: StandardValue| #[trigger] s.contains(v) ==> sv_le(v, m2));
    lemma_sv_le_antisym(m, m2);
}

/// Every nonempty finite set of values has a least element, and
/// `set_min` is it.
pub proof fn lemma_set_min_props(s: Set<StandardValue>)
    requires
        s.finite(),
        s.len() > 0,
    ensures
        s.contains(set_min(s)),
        forall|v: StandardValue| #[trigger] s.contains(v) ==> sv_le(set_min(s), v),
    decreases s.len(),
{
    let x = s.choose();
    assert(s.contains(x)) by {
        if !(exists|a: StandardValue| s.contains(a)) {
            assert(s =~= Set::empty());
        }
    }
    if s.len() == 1 {
        lemma_pinned_is_singleton(s, x);
        assert forall|v: StandardValue| #[trigger] s.contains(v) implies sv_le(x, v) by {
            assert(v == x);
        }
        lemma_set_min_is(s, x);
    } else {
        let rest = s.remove(x);
        lemma_set_min_props(rest);
        let m0 = set_min(rest);
        lemma_sv_le_total(x, m0);
        if sv_le(x, m0) {
            assert forall|v: StandardValue| #[trigger] s.contains(v) implies sv_le(x, v) by {
                if v != x {
                    assert(rest.contains(v));
                    lemma_sv_le_trans(x, m0, v);
                }
            }
            lemma_set_min_is(s, x);
        } else {
            assert(s.contains(m0)) by {
                assert(rest.contains(m0));
            }
            assert forall|v: StandardValue| #[trigger] s.contains(v) implies sv_le(m0, v) by {
                if v != x {
                    assert(rest.contains(v));
                }
            }
            lemma_set_min_is(s, m0);
        }
    }
}

/// Every nonempty finite set of values has a greatest element, and
/// `set_max` is it.
pub proof fn lemma_set_max_props(s: Set<StandardValue>)
    requires
        s.finite(),
        s.len() > 0,
    ensures
        s.contains(set_max(s)),
        forall|v: StandardValue| #[trigger] s.contains(v) ==> sv_le(v, set_max(s)),
    decreases s.len(),
{
    let x = s.choose();
    assert(s.contains(x)) by {
        if !(exists|a: StandardValue| s.contains(a)) {
            assert(s =~= Set::empty());
        }
    }
    if s.len() == 1 {
        lemma_pinned_is_singleton(s, x);
        assert forall|v: StandardValue| #[trigger] s.contains(v) implies sv_le(v, x) by {
            assert(v == x);
        }
        lemma_set_max_is(s, x);
    } else {
        let rest = s.remove(x);
        lemma_set_max_props(rest);
        let m0 = set_max(rest);
        lemma_sv_le_total(m0, x);
        if sv_le(m0, x) {
            assert forall|v: StandardValue| #[trigger] s.contains(v) implies sv_le(v, x) by {
                if v != x {
                    assert(rest.contains(v));
                    lemma_sv_le_trans(v, m0, x);
                }
            }
            lemma_set_max_is(s, x);
        } else {
            assert(s.contains(m0)) by {
                assert(rest.contains(m0));
            }
            assert forall|v: StandardValue| #[trigger] s.contains(v) implies sv_le(v, m0) by {
                if v != x {
                    assert(rest.contains(v));
                }
            }
            lemma_set_max_is(s, m0);
        }
    }
}

/// Whether a domain set is unusable for bounds reasoning: empty, or
/// not finite.
pub open spec fn term_empty(s: Set<StandardValue>) -> bool {
    !s.finite() || s.len() == 0
}

/// Enforces `terms[0] + terms[1] + ... == sum` by interval reasoning
/// over the domains' minima and maxima.
///
/// Arithmetic that the values do not support — adding booleans, or
/// sums that leave the 64-bit integer range — is a programming error,
/// reported through the error arm.
#[derive(Debug, Clone)]
pub struct SumOfConstraint {
    /// The term variables.
    pub terms: Vec<VariableId>,
    /// The variable holding the sum of the terms.
    pub sum: VariableId,
    /// All variables: the terms followed by the sum.
    pub all_vars: Vec<VariableId>,
}

impl SumOfConstraint {
    /// Creates a new constraint enforcing `Σ(terms) == ?sum`.
    pub fn new(terms: Vec<VariableId>, sum: VariableId) -> (r: Self)
        ensures
            r.terms == terms,
            r.sum == sum,
            r.all_vars@ == terms@.push(sum),
            r.wf() <==> !terms@.contains(sum),
    {
        let mut all_vars = copy_vars(&terms);
        all_vars.push(sum);
        SumOfConstraint { terms, sum, all_vars }
    }

    /// Whether any of the first `n` term domains is unusable,
    /// skipping occurrences of `skip`.
    pub open spec fn some_term_empty(
        &self,
        doms: Map<VariableId, Set<StandardValue>>,
        skip: Option<VariableId>,
    ) -> bool {
        exists|j: int|
            0 <= j < self.terms@.len() && Some(self.terms@[j]) != skip && term_empty(
                doms[self.terms@[j]],
            )
    }

    /// Folds the minima (or maxima) of the first `n` term domains,
    /// skipping occurrences of `skip`. The outer `None` is an
    /// arithmetic failure; the inner `None` means no term has been
    /// accumulated yet.
    pub open spec fn fold_bound(
        &self,
        doms: Map<VariableId, Set<StandardValue>>,
        n: int,
        skip: Option<VariableId>,
        use_min: bool,
    ) -> Option<Option<StandardValue>>
        decreases n,
    {
        if n <= 0 {
            Some(None)
        } else {
            let rest = self.fold_bound(doms, n - 1, skip, use_min);
            let t = self.terms@[n - 1];
            if Some(t) == skip {
                rest
            } else {
                let m = if use_min {
                    set_min(doms[t])
                } else {
                    set_max(doms[t])
                };
                match rest {
                    None => None,
                    Some(None) => Some(Some(m)),
                    Some(Some(a)) => match a.add_spec(m) {
                        None => None,
                        Some(x) => Some(Some(x)),
                    },
                }
            }
        }
    }

    /// An arithmetic failure in a prefix persists in longer prefixes.
    proof fn lemma_fold_fail_persists(
        &self,
        doms: Map<VariableId, Set<StandardValue>>,
        n: int,
        m: int,
        skip: Option<VariableId>,
        use_min: bool,
    )
        requires
            0 <= n <= m,
            self.fold_bound(doms, n, skip, use_min) is None,
        ensures
            self.fold_bound(doms, m, skip, use_min) is None,
        decreases m - n,
    {
        if m > n {
            self.lemma_fold_fail_persists(doms, n, m - 1, skip, use_min);
        }
    }

    /// The fold reads only the domains of the terms it does not skip.
    proof fn lemma_fold_frame(
        &self,
        d1: Map<VariableId, Set<StandardValue>>,
        d2: Map<VariableId, Set<StandardValue>>,
        n: int,
        skip: Option<VariableId>,
        use_min: bool,
    )
        requires
            forall|j: int|
                0 <= j < self.terms@.len() && Some(self.terms@[j]) != skip ==> d1[self.terms@[j]]
                    == d2[self.terms@[j]],
            n <= self.terms@.len(),
        ensures
            self.fold_bound(d1, n, skip, use_min) == self.fold_bound(d2, n, skip, use_min),
        decreases n,
    {
        if n > 0 {
            self.lemma_fold_frame(d1, d2, n - 1, skip, use_min);
        }
    }

    /// With no skipped variable, a nonempty fold accumulates at least
    /// one term.
    proof fn lemma_fold_unskipped_contributes(
        &self,
        doms: Map<VariableId, Set<StandardValue>>,
        n: int,
        use_min: bool,
    )
        requires
            1 <= n <= self.terms@.len(),
            self.fold_bound(doms, n, None, use_min) is Some,
        ensures
            self.fold_bound(doms, n, None, use_min)->Some_0 is Some,
    {
        assert(Some(self.terms@[n - 1]) != None::<VariableId>);
    }

    /// For a pinned-down refinement of the domains, the two bound
    /// folds agree on one accumulated value, and it lies between the
    /// wider domains' accumulated bounds.
    proof fn lemma_fold_between(
        &self,
        d1: Map<VariableId, Set<StandardValue>>,
        d2: Map<VariableId, Set<StandardValue>>,
        n: int,
        skip: Option<VariableId>,
    )
        requires
            0 <= n <= self.terms@.len(),
            forall|j: int| #![trigger self.terms@[j]]
                0 <= j < self.terms@.len() && Some(self.terms@[j]) != skip ==> {
                    &&& !term_empty(d1[self.terms@[j]])
                    &&& d2[self.terms@[j]].subset_of(d1[self.terms@[j]])
                    &&& d2[self.terms@[j]].finite()
                    &&& d2[self.terms@[j]].len() == 1
                },
            self.fold_bound(d1, n, skip, true) is Some,
            self.fold_bound(d1, n, skip, false) is Some,
        ensures
            self.fold_bound(d2, n, skip, false) == self.fold_bound(d2, n, skip, true),
            match (
                self.fold_bound(d1, n, skip, true),
                self.fold_bound(d2, n, skip, true),
                self.fold_bound(d1, n, skip, false),
            ) {
                (Some(a), Some(b), Some(c)) => match (a, b, c) {
                    (Option::None, Option::None, Option::None) => true,
                    (Some(lo), Some(m), Some(hi)) => sv_le(lo, m) && sv_le(m, hi),
                    _ => false,
                },
                _ => false,
            },
        decreases n,
    {
        if n > 0 {
            let t = self.terms@[n - 1];
            assert(self.fold_bound(d1, n - 1, skip, true) is Some);
            assert(self.fold_bound(d1, n - 1, skip, false) is Some);
            self.lemma_fold_between(d1, d2, n - 1, skip);
            if Some(t) != skip {
                let w = d2[t].choose();
                assert(d2[t].contains(w)) by {
                    if !(exists|a: StandardValue| d2[t].contains(a)) {
                        assert(d2[t] =~= Set::empty());
                    }
                }
                lemma_pinned_is_singleton(d2[t], w);
                assert forall|v: StandardValue| #[trigger]
                    d2[t].contains(v) implies sv_le(w, v) && sv_le(v, w) by {
                    assert(v == w);
                }
                lemma_set_min_is(d2[t], w);
                lemma_set_max_is(d2[t], w);
                lemma_set_min_props(d1[t]);
                lemma_set_max_props(d1[t]);
                assert(d1[t].contains(w));
                let lo_t = set_min(d1[t]);
                let hi_t = set_max(d1[t]);
                assert(sv_le(lo_t, w) && sv_le(w, hi_t));
                match (
                    self.fold_bound(d1, n - 1, skip, true),
                    self.fold_bound(d2, n - 1, skip, true),
                    self.fold_bound(d1, n - 1, skip, false),
                ) {
                    (Some(a), Some(b), Some(c)) => {
                        match (a, b, c) {
                            (Option::None, Option::None, Option::None) => {
                                assert(self.fold_bound(d1, n, skip, true) == Some(Some(lo_t)));
                                assert(self.fold_bound(d2, n, skip, true) == Some(Some(w)));
                                assert(self.fold_bound(d1, n, skip, false) == Some(Some(hi_t)));
                            },
                            (Some(lo), Some(m), Some(hi)) => {
                                assert(lo.add_spec(lo_t) is Some);
                                assert(hi.add_spec(hi_t) is Some);
                                assert(lo is Int && lo_t is Int && hi is Int && hi_t is Int);
                                assert(m is Int) by {
                                    if m is Bool {
                                        assert(!sv_le(m, hi));
                                    }
                                }
                                assert(w is Int) by {
                                    if w is Bool {
                                        assert(!sv_le(w, hi_t));
                                    }
                                }
                                assert(m.add_spec(w) is Some);
                            },
                            _ => {
                                assert(false);
                            },
                        }
                    },
                    _ => {
                        assert(false);
                    },
                }
            }
        }
    }

    /// A one-point interval inside a surrounding interval.
    proof fn lemma_point_interval_subset(lo: StandardValue, m: StandardValue, hi: StandardValue)
        requires
            sv_le(lo, m),
            sv_le(m, hi),
        ensures
            sv_interval(m, m).subset_of(sv_interval(lo, hi)),
    {
        assert forall|v: StandardValue|
            sv_interval(m, m).contains(v) implies sv_interval(lo, hi).contains(v) by {
            lemma_sv_le_trans(lo, m, v);
            lemma_sv_le_trans(v, m, hi);
        }
    }

    /// The lower bound used when revising the sum variable.
    pub open spec fn sum_lo(&self, doms: Map<VariableId, Set<StandardValue>>) -> StandardValue {
        match self.fold_bound(doms, self.terms@.len() as int, None, true) {
            Some(Some(v)) => v,
            _ => StandardValue::Int(0),
        }
    }

    /// The upper bound used when revising the sum variable.
    pub open spec fn sum_hi(&self, doms: Map<VariableId, Set<StandardValue>>) -> StandardValue {
        match self.fold_bound(doms, self.terms@.len() as int, None, false) {
            Some(Some(v)) => v,
            _ => StandardValue::Int(0),
        }
    }

    /// Whether the interval reasoning for the sum variable fails on
    /// unsupported arithmetic.
    pub open spec fn sum_err(&self, doms: Map<VariableId, Set<StandardValue>>) -> bool {
        &&& self.terms@.len() > 0
        &&& !self.some_term_empty(doms, None)
        &&& (self.fold_bound(doms, self.terms@.len() as int, None, true) is None || self.fold_bound(
            doms,
            self.terms@.len() as int,
            None,
            false,
        ) is None)
    }

    /// The bounds used when revising a term variable: the sum's bound
    /// minus the accumulated bounds of the other terms. The outer
    /// `None` is an arithmetic failure.
    pub open spec fn term_bound(
        &self,
        doms: Map<VariableId, Set<StandardValue>>,
        target: VariableId,
        hi: bool,
    ) -> Option<StandardValue> {
        let s_bound = if hi {
            set_max(doms[self.sum])
        } else {
            set_min(doms[self.sum])
        };
        match self.fold_bound(doms, self.terms@.len() as int, Some(target), hi) {
            None => None,
            Some(None) => Some(s_bound),
            Some(Some(acc)) => s_bound.sub_spec(acc),
        }
    }

    /// Whether the interval reasoning for a term variable fails on
    /// unsupported arithmetic.
    pub open spec fn term_err(
        &self,
        doms: Map<VariableId, Set<StandardValue>>,
        target: VariableId,
    ) -> bool {
        &&& !term_empty(doms[self.sum])
        &&& !self.some_term_empty(doms, Some(target))
        &&& (self.term_bound(doms, target, false) is None || self.term_bound(
            doms,
            target,
            true,
        ) is None)
    }
}

impl Constraint for SumOfConstraint {
    open spec fn vars_spec(&self) -> Seq<VariableId> {
        self.all_vars@
    }

    open spec fn wf(&self) -> bool {
        self.all_vars@ == self.terms@.push(self.sum) && !self.terms@.contains(self.sum)
    }

    open spec fn priority_spec(&self) -> ConstraintPriority {
        priority::NORMAL
    }

    open spec fn keep_set(
        &self,
        target: VariableId,
        doms: Map<VariableId, Set<StandardValue>>,
    ) -> Set<StandardValue> {
        if target == self.sum {
            if self.terms@.len() == 0 || self.some_term_empty(doms, None) || self.sum_err(doms) {
                Set::new(|v: StandardValue| true)
            } else {
                sv_interval(self.sum_lo(doms), self.sum_hi(doms))
            }
        } else {
            if term_empty(doms[self.sum]) || self.some_term_empty(doms, Some(target))
                || self.term_err(doms, target) {
                Set::new(|v: StandardValue| true)
            } else {
                sv_interval(
                    self.term_bound(doms, target, false)->Some_0,
                    self.term_bound(doms, target, true)->Some_0,
                )
            }
        }
    }

    open spec fn revise_err(
        &self,
        target: VariableId,
        doms: Map<VariableId, Set<StandardValue>>,
    ) -> bool {
        !self.vars_spec().contains(target) || if target == self.sum {
            self.sum_err(doms)
        } else {
            self.term_err(doms, target)
        }
    }

    proof fn lemma_keep_frame(
        &self,
        target: VariableId,
        d1: Map<VariableId, Set<StandardValue>>,
        d2: Map<VariableId, Set<StandardValue>>,
    ) {
        assert(self.vars_spec()[self.terms@.len() as int] == self.sum);
        assert(self.vars_spec().contains(self.sum));
        assert forall|j: int| 0 <= j < self.terms@.len() implies self.vars_spec().contains(
            self.terms@[j],
        ) by {
            assert(self.vars_spec()[j] == self.terms@[j]);
        }
        let n = self.terms@.len() as int;
        if target == self.sum {
            assert forall|j: int| 0 <= j < n implies d1[self.terms@[j]] == d2[self.terms@[j]] by {
                assert(self.terms@[j] != self.sum) by {
                    assert(self.terms@.contains(self.terms@[j]));
                }
            }
            self.lemma_fold_frame(d1, d2, n, None, true);
            self.lemma_fold_frame(d1, d2, n, None, false);
            assert(self.some_term_empty(d1, None) == self.some_term_empty(d2, None)) by {
                if self.some_term_empty(d1, None) {
                    let j = choose|j: int|
                        0 <= j < n && Some(self.terms@[j]) != None::<VariableId> && term_empty(
                            d1[self.terms@[j]],
                        );
                    assert(term_empty(d2[self.terms@[j]]));
                }
                if self.some_term_empty(d2, None) {
                    let j = choose|j: int|
                        0 <= j < n && Some(self.terms@[j]) != None::<VariableId> && term_empty(
                            d2[self.terms@[j]],
                        );
                    assert(term_empty(d1[self.terms@[j]]));
                }
            }
        } else {
            assert(self.sum != target);
            assert(d1[self.sum] == d2[self.sum]);
            assert forall|j: int|
                0 <= j < n && Some(self.terms@[j]) != Some(target) implies d1[self.terms@[j]]
                == d2[self.terms@[j]] by {
                assert(self.terms@[j] != target);
            }
            self.lemma_fold_frame(d1, d2, n, Some(target), true);
            self.lemma_fold_frame(d1, d2, n, Some(target), false);
            assert(self.some_term_empty(d1, Some(target)) == self.some_term_empty(
                d2,
                Some(target),
            )) by {
                if self.some_term_empty(d1, Some(target)) {
                    let j = choose|j: int|
                        0 <= j < n && Some(self.terms@[j]) != Some(target) && term_empty(
                            d1[self.terms@[j]],
                        );
                    assert(term_empty(d2[self.terms@[j]]));
                }
                if self.some_term_empty(d2, Some(target)) {
                    let j = choose|j: int|
                        0 <= j < n && Some(self.terms@[j]) != Some(target) && term_empty(
                            d2[self.terms@[j]],
                        );
                    assert(term_empty(d1[self.terms@[j]]));
                }
            }
        }
    }

    proof fn lemma_keep_antitone(
        &self,
        target: VariableId,
        d1: Map<VariableId, Set<StandardValue>>,
        d2: Map<VariableId, Set<StandardValue>>,
    ) {
        let n = self.terms@.len() as int;
        assert(self.vars_spec()[n] == self.sum);
        assert(self.vars_spec().contains(self.sum));
        assert forall|j: int| 0 <= j < n implies self.vars_spec().contains(self.terms@[j]) by {
            assert(self.vars_spec()[j] == self.terms@[j]);
        }
        if target == self.sum {
            if self.terms@.len() == 0 || self.some_term_empty(d1, None) || self.sum_err(d1) {
                assert forall|v: StandardValue|
                    self.keep_set(target, d2).contains(v) implies self.keep_set(
                    target,
                    d1,
                ).contains(v) by {}
            } else {
                assert forall|j: int| #![trigger self.terms@[j]]
                    0 <= j < n && Some(self.terms@[j]) != None::<VariableId> implies {
                    &&& !term_empty(d1[self.terms@[j]])
                    &&& d2[self.terms@[j]].subset_of(d1[self.terms@[j]])
                    &&& d2[self.terms@[j]].finite()
                    &&& d2[self.terms@[j]].len() == 1
                } by {
                    assert(self.vars_spec().contains(self.terms@[j]));
                }
                self.lemma_fold_between(d1, d2, n, None);
                self.lemma_fold_unskipped_contributes(d1, n, true);
                match (
                    self.fold_bound(d1, n, None, true),
                    self.fold_bound(d2, n, None, true),
                    self.fold_bound(d1, n, None, false),
                ) {
                    (Some(Some(lo)), Some(Some(m)), Some(Some(hi))) => {
                        assert(self.sum_lo(d1) == lo && self.sum_hi(d1) == hi);
                        assert(self.sum_lo(d2) == m && self.sum_hi(d2) == m);
                        assert(!self.some_term_empty(d2, None)) by {
                            if self.some_term_empty(d2, None) {
                                let j = choose|j: int|
                                    0 <= j < n && Some(self.terms@[j]) != None::<VariableId>
                                        && term_empty(d2[self.terms@[j]]);
                                assert(!term_empty(d2[self.terms@[j]]));
                            }
                        }
                        assert(!self.sum_err(d2));
                        Self::lemma_point_interval_subset(lo, m, hi);
                    },
                    _ => {
                        assert(false);
                    },
                }
            }
        } else {
            assert(self.terms@.contains(target)) by {
                let j = choose|j: int|
                    0 <= j < self.vars_spec().len() && self.vars_spec()[j] == target;
                if j < n {
                    assert(self.terms@[j] == target);
                } else {
                    assert(self.vars_spec()[j] == self.sum);
                }
            }
            if term_empty(d1[self.sum]) || self.some_term_empty(d1, Some(target)) || self.term_err(
                d1,
                target,
            ) {
                assert forall|v: StandardValue|
                    self.keep_set(target, d2).contains(v) implies self.keep_set(
                    target,
                    d1,
                ).contains(v) by {}
            } else {
                // bounds of the sum variable
                let w_s = d2[self.sum].choose();
                assert(d2[self.sum].contains(w_s)) by {
                    if !(exists|a: StandardValue| d2[self.sum].contains(a)) {
                        assert(d2[self.sum] =~= Set::empty());
                    }
                }
                lemma_pinned_is_singleton(d2[self.sum], w_s);
                assert forall|v: StandardValue| #[trigger]
                    d2[self.sum].contains(v) implies sv_le(w_s, v) && sv_le(v, w_s) by {
                    assert(v == w_s);
                }
                lemma_set_min_is(d2[self.sum], w_s);
                lemma_set_max_is(d2[self.sum], w_s);
                lemma_set_min_props(d1[self.sum]);
                lemma_set_max_props(d1[self.sum]);
                assert(d1[self.sum].contains(w_s));
                let lo_s = set_min(d1[self.sum]);
                let hi_s = set_max(d1[self.sum]);
                assert(sv_le(lo_s, w_s) && sv_le(w_s, hi_s));
                // bounds of the other terms
                assert forall|j: int| #![trigger self.terms@[j]]
                    0 <= j < n && Some(self.terms@[j]) != Some(target) implies {
                    &&& !term_empty(d1[self.terms@[j]])
                    &&& d2[self.terms@[j]].subset_of(d1[self.terms@[j]])
                    &&& d2[self.terms@[j]].finite()
                    &&& d2[self.terms@[j]].len() == 1
                } by {
                    assert(self.vars_spec().contains(self.terms@[j]));
                }
                assert(self.fold_bound(d1, n, Some(target), true) is Some);
                assert(self.fold_bound(d1, n, Some(target), false) is Some);
                self.lemma_fold_between(d1, d2, n, Some(target));
                assert(!self.some_term_empty(d2, Some(target))) by {
                    if self.some_term_empty(d2, Some(target)) {
                        let j = choose|j: int|
                            0 <= j < n && Some(self.terms@[j]) != Some(target) && term_empty(
                                d2[self.terms@[j]],
                            );
                        assert(!term_empty(d2[self.terms@[j]]));
                    }
                }
                match (
                    self.fold_bound(d1, n, Some(target), true),
                    self.fold_bound(d2, n, Some(target), true),
                    self.fold_bound(d1, n, Some(target), false),
                ) {
                    (Some(Option::None), Some(Option::None), Some(Option::None)) => {
                        assert(self.term_bound(d1, target, false) == Some(lo_s));
                        assert(self.term_bound(d1, target, true) == Some(hi_s));
                        assert(self.term_bound(d2, target, false) == Some(w_s));
                        assert(self.term_bound(d2, target, true) == Some(w_s));
                        assert(!self.term_err(d2, target));
                        Self::lemma_point_interval_subset(lo_s, w_s, hi_s);
                    },
                    (Some(Some(lo_o)), Some(Some(m_o)), Some(Some(hi_o))) => {
                        assert(lo_s.sub_spec(hi_o) is Some);
                        assert(hi_s.sub_spec(lo_o) is Some);
                        assert(lo_s is Int && hi_o is Int && hi_s is Int && lo_o is Int);
                        assert(m_o is Int) by {
                            if m_o is Bool {
                                assert(!sv_le(m_o, hi_o));
                            }
                        }
                        assert(w_s is Int) by {
                            if w_s is Bool {
                                assert(!sv_le(w_s, hi_s));
                            }
                        }
                        assert(w_s.sub_spec(m_o) is Some);
                        let lb1 = self.term_bound(d1, target, false)->Some_0;
                        let ub1 = self.term_bound(d1, target, true)->Some_0;
                        let b2 = self.term_bound(d2, target, false)->Some_0;
                        assert(self.term_bound(d2, target, true) == Some(b2));
                        assert(sv_le(lb1, b2) && sv_le(b2, ub1));
                        assert(!self.term_err(d2, target));
                        Self::lemma_point_interval_subset(lb1, b2, ub1);
                    },
                    _ => {
                        assert(false);
                    },
                }
            }
        }
    }

    fn variables(&self) -> (r: &Vec<VariableId>) {
        &self.all_vars
    }

    fn priority(&self) -> (r: ConstraintPriority) {
        priority::NORMAL
    }

    #[verifier::loop_isolation(false)]
    fn descriptor(&self) -> ConstraintDescriptor {
        let mut description = String::new();
        let mut i: usize = 0;
        while i < self.terms.len()
            decreases self.terms@.len() - i,
        {
            if i > 0 {
                push_str(&mut description, " + ");
            }
            push_var(&mut description, self.terms[i]);
            i += 1;
        }
        push_str(&mut description, " == ");
        push_var(&mut description, self.sum);
        ConstraintDescriptor { name: string_of("SumOfConstraint"), description }
    }

    #[verifier::loop_isolation(false)]
    fn revise(&self, target_var: &VariableId, solution: &Solution) -> (r: Result<
        Option<Solution>,
        Error,
    >) {
        let target = *target_var;
        if !contains_var(&self.all_vars, target) {
            proof {
                assert(!self.vars_spec().contains(target));
            }
            return Err(foreign_target_error("SumOfConstraint", target));
        }
        proof {
            assert(self.vars_spec().contains(target));
        }
        let ghost doms = solution.doms();
        let ghost keep = self.keep_set(target, doms);
        proof {
            assert(self.vars_spec()[self.terms@.len() as int] == self.sum);
            assert(self.vars_spec().contains(self.sum));
            assert forall|j: int| 0 <= j < self.terms@.len() implies self.vars_spec().contains(
                self.terms@[j],
            ) by {
                assert(self.vars_spec()[j] == self.terms@[j]);
            }
            if target != self.sum {
                let j = choose|j: int|
                    0 <= j < self.vars_spec().len() && self.vars_spec()[j] == target;
                if j == self.terms@.len() {
                    assert(self.vars_spec()[j] == self.sum);
                } else {
                    assert(self.terms@[j] == target);
                    assert(self.terms@.contains(target));
                }
            }
        }
        let is_target_the_sum = target == self.sum;
        let skip = if is_target_the_sum {
            None
        } else {
            Some(target)
        };
        let ghost gskip: Option<VariableId> = if is_target_the_sum {
            None
        } else {
            Some(target)
        };
        // Bounds of the sum variable, needed only when revising a term.
        let mut s_lo = StandardValue::Int(0);
        let mut s_hi = StandardValue::Int(0);
        if !is_target_the_sum {
            let sum_dom = solution.get_domain(self.sum).unwrap();
            match sum_dom.get_min_value() {
                None => {
                    proof {
                        assert(term_empty(doms[self.sum]));
                        assert(doms[target].subset_of(keep));
                    }
                    return Ok(None);
                },
                Some(m) => {
                    proof {
                        lemma_set_min_is(doms[self.sum], m);
                    }
                    s_lo = m;
                },
            }
            let m = sum_dom.get_max_value().unwrap();
            proof {
                lemma_set_max_is(doms[self.sum], m);
            }
            s_hi = m;
        } else {
            if self.terms.len() == 0 {
                proof {
                    assert(doms[target].subset_of(keep));
                }
                return Ok(None);
            }
        }
        // First pass: a term domain that is empty blocks all interval
        // reasoning.
        let mut j: usize = 0;
        while j < self.terms.len()
            invariant
                j <= self.terms@.len(),
                forall|jj: int|
                    0 <= jj < j && Some(self.terms@[jj]) != gskip ==> !term_empty(
                        doms[self.terms@[jj]],
                    ),
            decreases self.terms@.len() - j,
        {
            let t = self.terms[j];
            let skip_this = match skip {
                Some(s) => t == s,
                None => false,
            };
            if !skip_this {
                let d = solution.get_domain(t).unwrap();
                if d.is_empty() {
                    proof {
                        assert(Some(self.terms@[j as int]) != gskip);
                        assert(term_empty(doms[self.terms@[j as int]]));
                        assert(self.some_term_empty(doms, gskip));
                        assert(doms[target].subset_of(keep));
                    }
                    return Ok(None);
                }
            }
            j += 1;
        }
        proof {
            assert(!self.some_term_empty(doms, gskip)) by {
                if self.some_term_empty(doms, gskip) {
                    let jj = choose|jj: int|
                        0 <= jj < self.terms@.len() && Some(self.terms@[jj]) != gskip
                            && term_empty(doms[self.terms@[jj]]);
                    assert(!term_empty(doms[self.terms@[jj]]));
                }
            }
        }
        // Second pass: fold the minima and maxima of the terms.
        let mut acc_min: Option<StandardValue> = None;
        let mut acc_max: Option<StandardValue> = None;
        let mut k: usize = 0;
        while k < self.terms.len()
            invariant
                k <= self.terms@.len(),
                self.fold_bound(doms, k as int, gskip, true) == Some(acc_min),
                self.fold_bound(doms, k as int, gskip, false) == Some(acc_max),
            decreases self.terms@.len() - k,
        {
            let t = self.terms[k];
            let skip_this = match skip {
                Some(s) => t == s,
                None => false,
            };
            if !skip_this {
                let d = solution.get_domain(t).unwrap();
                let mn = d.get_min_value().unwrap();
                let mx = d.get_max_value().unwrap();
                proof {
                    lemma_set_min_is(doms[t], mn);
                    lemma_set_max_is(doms[t], mx);
                }
                acc_min = match acc_min {
                    None => Some(mn),
                    Some(a) => match a.add(&mn) {
                        None => {
                            proof {
                                assert(self.fold_bound(doms, k + 1, gskip, true) is None);
                                self.lemma_fold_fail_persists(
                                    doms,
                                    k + 1,
                                    self.terms@.len() as int,
                                    gskip,
                                    true,
                                );
                            }
                            return Err(
                                Error::from_solver(
                                    SolverError::Custom(
                                        string_of("SumOfConstraint applied to unsupported values"),
                                    ),
                                ),
                            );
                        },
                        Some(x) => Some(x),
                    },
                };
                acc_max = match acc_max {
                    None => Some(mx),
                    Some(a) => match a.add(&mx) {
                        None => {
                            proof {
                                assert(self.fold_bound(doms, k + 1, gskip, false) is None);
                                self.lemma_fold_fail_persists(
                                    doms,
                                    k + 1,
                                    self.terms@.len() as int,
                                    gskip,
                                    false,
                                );
                            }
                            return Err(
                                Error::from_solver(
                                    SolverError::Custom(
                                        string_of("SumOfConstraint applied to unsupported values"),
                                    ),
                                ),
                            );
                        },
                        Some(x) => Some(x),
                    },
                };
            }
            k += 1;
        }
        let target_dom = solution.get_domain(target).unwrap();
        if is_target_the_sum {
            // The sum variable is narrowed to [Σ min, Σ max].
            let lo = acc_min.unwrap();
            let hi = acc_max.unwrap();
            proof {
                assert(lo == self.sum_lo(doms));
                assert(hi == self.sum_hi(doms));
                assert(!self.sum_err(doms));
            }
            let new_dom = target_dom.restrict_to_bounds(&lo, &hi);
            proof {
                assert(new_dom@ =~= doms[target].intersect(keep));
            }
            Ok(finish_revise(solution, target, new_dom, Ghost(keep)))
        } else {
            // A term variable is narrowed to
            // [min(sum) - Σ max(others), max(sum) - Σ min(others)].
            let lo = match acc_max {
                None => s_lo,
                Some(acc) => match s_lo.sub(&acc) {
                    None => {
                        return Err(
                            Error::from_solver(
                                SolverError::Custom(
                                    string_of("SumOfConstraint applied to unsupported values"),
                                ),
                            ),
                        );
                    },
                    Some(x) => x,
                },
            };
            let hi = match acc_min {
                None => s_hi,
                Some(acc) => match s_hi.sub(&acc) {
                    None => {
                        return Err(
                            Error::from_solver(
                                SolverError::Custom(
                                    string_of("SumOfConstraint applied to unsupported values"),
                                ),
                            ),
                        );
                    },
                    Some(x) => x,
                },
            };
            proof {
                assert(Some(lo) == self.term_bound(doms, target, false));
                assert(Some(hi) == self.term_bound(doms, target, true));
                assert(!self.term_err(doms, target));
            }
            let new_dom = target_dom.restrict_to_bounds(&lo, &hi);
            proof {
                assert(new_dom@ =~= doms[target].intersect(keep));
            }
            Ok(finish_revise(solution, target, new_dom, Ghost(keep)))
        }
    }
}

} // verus!
