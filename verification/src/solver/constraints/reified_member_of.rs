//! A constraint that reifies table membership:
//! `B <==> (V1, V2, ...) is in the data set`.

use vstd::prelude::*;

use crate::error::Error;
use crate::solver::constraint::{
    contains_var, copy_vars, finish_revise, foreign_target_error, priority, push_str, push_var, string_of, u32_to_string, Constraint,
    ConstraintDescriptor, ConstraintPriority,
};
use crate::solver::constraints::boolean_or::pinned_to;
use crate::solver::engine::VariableId;
use crate::solver::solution::{DomainRepresentation, Solution};
use crate::solver::value::StandardValue;

verus! {

broadcast use vstd::seq_lib::lemma_seq_contains_after_push;

/// Enforces `?b <==> (?v1, ?v2, ...) ∈ table`.
///
/// When `b` is pinned to `true`, each variable is restricted to the
/// projection, at its position, of the rows that survive the other
/// variables' domains; when no table row is compatible with the
/// current domains, `b` is forced to `false`.
#[derive(Debug, Clone)]
pub struct ReifiedMemberOfConstraint {
    /// The boolean variable reifying membership.
    pub b: VariableId,
    /// The tuple of variables tested for membership.
    pub vars: Vec<VariableId>,
    /// The table of allowed tuples; every row has one value per
    /// variable.
    pub data_set: Vec<Vec<StandardValue>>,
    /// All variables: the tuple followed by the boolean.
    pub all_vars: Vec<VariableId>,
}

impl ReifiedMemberOfConstraint {
    /// Creates a new constraint enforcing `?b <==> tuple ∈ table`.
    pub fn new(b: VariableId, vars: Vec<VariableId>, data_set: Vec<Vec<StandardValue>>) -> (r:
        Self)
        ensures
            r.b == b,
            r.vars == vars,
            r.data_set == data_set,
            r.all_vars@ == vars@.push(b),
    {
        let mut all_vars = copy_vars(&vars);
        all_vars.push(b);
        ReifiedMemberOfConstraint { b, vars, data_set, all_vars }
    }

    /// Whether a table row is compatible with the current domains.
    pub open spec fn row_compatible(
        &self,
        doms: Map<VariableId, Set<StandardValue>>,
        r: int,
    ) -> bool {
        forall|j: int|
            0 <= j < self.vars@.len() ==> doms[self.vars@[j]].contains(self.data_set@[r]@[j])
    }

    /// Whether any table row is compatible with the current domains.
    pub open spec fn possible(&self, doms: Map<VariableId, Set<StandardValue>>) -> bool {
        exists|r: int| 0 <= r < self.data_set@.len() && self.row_compatible(doms, r)
    }

    /// The index of a tuple variable within the tuple.
    pub open spec fn idx_of(&self, target: VariableId) -> int {
        choose|i: int| 0 <= i < self.vars@.len() && self.vars@[i] == target
    }

    /// Whether a table row is compatible with the domains of every
    /// tuple variable other than the one at the given position.
    pub open spec fn row_fits_elsewhere(
        &self,
        doms: Map<VariableId, Set<StandardValue>>,
        r: int,
        i: int,
    ) -> bool {
        forall|j: int|
            0 <= j < self.vars@.len() && j != i ==> doms[self.vars@[j]].contains(
                self.data_set@[r]@[j],
            )
    }

    /// The projection, at one position, of the rows that survive the
    /// other variables' domains.
    pub open spec fn surviving_projection(
        &self,
        doms: Map<VariableId, Set<StandardValue>>,
        i: int,
    ) -> Set<StandardValue> {
        Set::new(
            |v: StandardValue|
                exists|r: int|
                    0 <= r < self.data_set@.len() && self.data_set@[r]@[i] == v
                        && self.row_fits_elsewhere(doms, r, i),
        )
    }
}

impl Constraint for ReifiedMemberOfConstraint {
    open spec fn vars_spec(&self) -> Seq<VariableId> {
        self.all_vars@
    }

    open spec fn wf(&self) -> bool {
        &&& self.all_vars@ == self.vars@.push(self.b)
        &&& !self.vars@.contains(self.b)
        &&& self.vars@.no_duplicates()
        &&& forall|r: int|
            0 <= r < self.data_set@.len() ==> self.data_set@[r]@.len() == self.vars@.len()
    }

    open spec fn priority_spec(&self) -> ConstraintPriority {
        priority::NORMAL
    }

    open spec fn keep_set(
        &self,
        target: VariableId,
        doms: Map<VariableId, Set<StandardValue>>,
    ) -> Set<StandardValue> {
        if target == self.b {
            if !self.possible(doms) {
                Set::empty().insert(StandardValue::Bool(false))
            } else {
                Set::new(|v: StandardValue| true)
            }
        } else {
            if pinned_to(doms[self.b], StandardValue::Bool(true)) {
                self.surviving_projection(doms, self.idx_of(target))
            } else {
                Set::new(|v: StandardValue| true)
            }
        }
    }

    open spec fn revise_err(
        &self,
        target: VariableId,
        doms: Map<VariableId, Set<StandardValue>>,
    ) -> bool {
        !self.vars_spec().contains(target)
    }

    proof fn lemma_keep_frame(
        &self,
        target: VariableId,
        d1: Map<VariableId, Set<StandardValue>>,
        d2: Map<VariableId, Set<StandardValue>>,
    ) {
        assert(self.vars_spec()[self.vars@.len() as int] == self.b);
        assert(self.vars_spec().contains(self.b));
        assert forall|j: int| 0 <= j < self.vars@.len() implies self.vars_spec().contains(
            self.vars@[j],
        ) by {
            assert(self.vars_spec()[j] == self.vars@[j]);
        }
        if target == self.b {
            assert forall|j: int| 0 <= j < self.vars@.len() implies d1[self.vars@[j]]
                == d2[self.vars@[j]] by {}
            assert forall|r: int| 0 <= r < self.data_set@.len() implies self.row_compatible(
                d1,
                r,
            ) == self.row_compatible(d2, r) by {}
            assert(self.possible(d1) == self.possible(d2)) by {
                if self.possible(d1) {
                    let r = choose|r: int|
                        0 <= r < self.data_set@.len() && self.row_compatible(d1, r);
                    assert(self.row_compatible(d2, r));
                }
                if self.possible(d2) {
                    let r = choose|r: int|
                        0 <= r < self.data_set@.len() && self.row_compatible(d2, r);
                    assert(self.row_compatible(d1, r));
                }
            }
        } else {
            assert(d1[self.b] == d2[self.b]);
            let i = self.idx_of(target);
            assert(self.vars@.contains(target)) by {
                let j = choose|j: int|
                    0 <= j < self.vars_spec().len() && self.vars_spec()[j] == target;
                if j < self.vars@.len() {
                    assert(self.vars@[j] == target);
                } else {
                    assert(self.vars_spec()[j] == self.b);
                }
            }
            assert(0 <= i < self.vars@.len() && self.vars@[i] == target);
            assert forall|j: int| 0 <= j < self.vars@.len() && j != i implies d1[self.vars@[j]]
                == d2[self.vars@[j]] by {
                assert(self.vars@[j] != self.vars@[i]);
            }
            assert forall|r: int|
                0 <= r < self.data_set@.len() implies self.row_fits_elsewhere(d1, r, i)
                == self.row_fits_elsewhere(d2, r, i) by {}
            assert(self.surviving_projection(d1, i) =~= self.surviving_projection(d2, i)) by {
                assert forall|v: StandardValue|
                    self.surviving_projection(d1, i).contains(v)
                    == self.surviving_projection(d2, i).contains(v) by {
                    if self.surviving_projection(d1, i).contains(v) {
                        let r = choose|r: int|
                            0 <= r < self.data_set@.len() && self.data_set@[r]@[i] == v
                                && self.row_fits_elsewhere(d1, r, i);
                        assert(self.row_fits_elsewhere(d2, r, i));
                        assert(self.surviving_projection(d2, i).contains(v));
                    }
                    if self.surviving_projection(d2, i).contains(v) {
                        let r = choose|r: int|
                            0 <= r < self.data_set@.len() && self.data_set@[r]@[i] == v
                                && self.row_fits_elsewhere(d2, r, i);
                        assert(self.row_fits_elsewhere(d1, r, i));
                        assert(self.surviving_projection(d1, i).contains(v));
                    }
                }
            }
        }
    }

    proof fn lemma_keep_antitone(
        &self,
        target: VariableId,
        d1: Map<VariableId, Set<StandardValue>>,
        d2: Map<VariableId, Set<StandardValue>>,
    ) {
        assert(self.vars_spec()[self.vars@.len() as int] == self.b);
        assert(self.vars_spec().contains(self.b));
        assert forall|j: int| 0 <= j < self.vars@.len() implies self.vars_spec().contains(
            self.vars@[j],
        ) by {
            assert(self.vars_spec()[j] == self.vars@[j]);
        }
        if target == self.b {
            if !self.possible(d1) {
                assert(!self.possible(d2)) by {
                    if self.possible(d2) {
                        let r = choose|r: int|
                            0 <= r < self.data_set@.len() && self.row_compatible(d2, r);
                        assert forall|j: int|
                            0 <= j < self.vars@.len() implies d1[self.vars@[j]].contains(
                            self.data_set@[r]@[j],
                        ) by {
                            assert(d2[self.vars@[j]].contains(self.data_set@[r]@[j]));
                        }
                        assert(self.row_compatible(d1, r));
                    }
                }
            } else {
                assert forall|v: StandardValue|
                    self.keep_set(target, d2).contains(v) implies self.keep_set(
                    target,
                    d1,
                ).contains(v) by {}
            }
        } else {
            let i = self.idx_of(target);
            assert(self.vars@.contains(target)) by {
                let j = choose|j: int|
                    0 <= j < self.vars_spec().len() && self.vars_spec()[j] == target;
                if j < self.vars@.len() {
                    assert(self.vars@[j] == target);
                } else {
                    assert(self.vars_spec()[j] == self.b);
                }
            }
            assert(0 <= i < self.vars@.len() && self.vars@[i] == target);
            if pinned_to(d1[self.b], StandardValue::Bool(true)) {
                vstd::set_lib::lemma_subset_equality(d2[self.b], d1[self.b]);
                assert forall|v: StandardValue|
                    self.surviving_projection(d2, i).contains(v)
                    implies self.surviving_projection(d1, i).contains(v) by {
                    let r = choose|r: int|
                        0 <= r < self.data_set@.len() && self.data_set@[r]@[i] == v
                            && self.row_fits_elsewhere(d2, r, i);
                    assert forall|j: int|
                        0 <= j < self.vars@.len() && j != i implies d1[self.vars@[j]].contains(
                        self.data_set@[r]@[j],
                    ) by {
                        assert(d2[self.vars@[j]].contains(self.data_set@[r]@[j]));
                    }
                    assert(self.row_fits_elsewhere(d1, r, i));
                }
            } else {
                assert forall|v: StandardValue|
                    self.keep_set(target, d2).contains(v) implies self.keep_set(
                    target,
                    d1,
                ).contains(v) by {}
            }
        }
    }

    fn variables(&self) -> (r: &Vec<VariableId>) {
        &self.all_vars
    }

    fn priority(&self) -> (r: ConstraintPriority) {
        priority::NORMAL
    }

    #[verifier::loop_isolation(false)]
    fn descriptor(&self) -> ConstraintDescriptor {
        let mut description = String::new();
        push_var(&mut description, self.b);
        push_str(&mut description, " <==> IsMember((");
        let mut i: usize = 0;
        while i < self.vars.len()
            decreases self.vars@.len() - i,
        {
            if i > 0 {
                push_str(&mut description, ", ");
            }
            push_var(&mut description, self.vars[i]);
            i += 1;
        }
        push_str(&mut description, "), [");
        push_str(&mut description, u32_to_string(self.data_set.len() as u32).as_str());
        push_str(&mut description, " items])");
        ConstraintDescriptor { name: string_of("ReifiedMemberOfConstraint"), description }
    }

    #[verifier::loop_isolation(false)]
    fn revise(&self, target_var: &VariableId, solution: &Solution) -> (r: Result<
        Option<Solution>,
        Error,
    >) {
        let target = *target_var;
        if !contains_var(&self.all_vars, target) {
            proof {
                assert(!self.vars_spec().contains(target));
            }
            return Err(foreign_target_error("ReifiedMemberOfConstraint", target));
        }
        proof {
            assert(self.vars_spec().contains(target));
        }
        let ghost doms = solution.doms();
        let ghost keep = self.keep_set(target, doms);
        proof {
            assert(self.vars_spec()[self.vars@.len() as int] == self.b);
            assert(self.vars_spec().contains(self.b));
            assert forall|j: int| 0 <= j < self.vars@.len() implies self.vars_spec().contains(
                self.vars@[j],
            ) by {
                assert(self.vars_spec()[j] == self.vars@[j]);
            }
        }
        if target == self.b {
            let mut found = false;
            let mut r_idx: usize = 0;
            while r_idx < self.data_set.len()
                invariant
                    r_idx <= self.data_set@.len(),
                    !found,
                    forall|rr: int| 0 <= rr < r_idx ==> !self.row_compatible(doms, rr),
                decreases self.data_set@.len() - r_idx,
            {
                let row = &self.data_set[r_idx];
                let mut all_in = true;
                let mut j: usize = 0;
                while j < self.vars.len()
                    invariant
                        j <= self.vars@.len(),
                        all_in <==> forall|jj: int|
                            0 <= jj < j ==> doms[self.vars@[jj]].contains(
                                self.data_set@[r_idx as int]@[jj],
                            ),
                    decreases self.vars@.len() - j,
                {
                    let var = self.vars[j];
                    let d = solution.get_domain(var).unwrap();
                    if !d.contains(&row[j]) {
                        all_in = false;
                    }
                    j += 1;
                }
                if all_in {
                    proof {
                        assert(self.row_compatible(doms, r_idx as int));
                        assert(self.possible(doms));
                        assert(doms[target].subset_of(keep));
                    }
                    return Ok(None);
                }
                proof {
                    assert(!self.row_compatible(doms, r_idx as int)) by {
                        if self.row_compatible(doms, r_idx as int) {
                            let jj = choose|jj: int|
                                0 <= jj < self.vars@.len() && !doms[self.vars@[jj]].contains(
                                    self.data_set@[r_idx as int]@[jj],
                                );
                            assert(false);
                        }
                    }
                }
                r_idx += 1;
            }
            proof {
                assert(!self.possible(doms)) by {
                    if self.possible(doms) {
                        let rr = choose|rr: int|
                            0 <= rr < self.data_set@.len() && self.row_compatible(doms, rr);
                        assert(!self.row_compatible(doms, rr));
                    }
                }
            }
            let b_dom = solution.get_domain(self.b).unwrap();
            let keep_vals = vec![StandardValue::Bool(false)];
            let new_dom = b_dom.retain_values(&keep_vals);
            proof {
                assert(keep_vals@.to_set() =~= Set::empty().insert(StandardValue::Bool(false)))
                    by {
                    assert(keep_vals@[0] == StandardValue::Bool(false));
                    assert(keep_vals@.contains(StandardValue::Bool(false)));
                }
                assert(new_dom@ =~= doms[target].intersect(keep));
            }
            return Ok(finish_revise(solution, target, new_dom, Ghost(keep)));
        }
        let b_dom = solution.get_domain(self.b).unwrap();
        let mut b_true = false;
        if b_dom.is_singleton() {
            let v = b_dom.get_singleton_value().unwrap();
            if v == StandardValue::Bool(true) {
                b_true = true;
            }
        }
        proof {
            assert(b_true == pinned_to(doms[self.b], StandardValue::Bool(true)));
        }
        if !b_true {
            proof {
                assert(doms[target].subset_of(keep));
            }
            return Ok(None);
        }
        let mut i: usize = 0;
        let mut idx: usize = 0;
        let mut found = false;
        while i < self.vars.len()
            invariant
                i <= self.vars@.len(),
                found ==> 0 <= idx < i && self.vars@[idx as int] == target,
                !found ==> forall|jj: int| 0 <= jj < i ==> self.vars@[jj] != target,
            decreases self.vars@.len() - i,
        {
            if !found && self.vars[i] == target {
                idx = i;
                found = true;
            }
            i += 1;
        }
        proof {
            assert(found) by {
                if !found {
                    assert(self.vars_spec().contains(target));
                    let j = choose|j: int|
                        0 <= j < self.vars_spec().len() && self.vars_spec()[j] == target;
                    if j < self.vars@.len() {
                        assert(self.vars@[j] == target);
                    } else {
                        assert(self.vars_spec()[j] == self.b);
                    }
                }
            }
            assert(self.idx_of(target) == idx as int) by {
                let i0 = self.idx_of(target);
                assert(0 <= i0 < self.vars@.len() && self.vars@[i0] == target);
                if i0 != idx as int {
                    assert(self.vars@[i0] == self.vars@[idx as int]);
                }
            }
        }
        let mut proj: Vec<StandardValue> = Vec::new();
        let mut r_idx: usize = 0;
        while r_idx < self.data_set.len()
            invariant
                r_idx <= self.data_set@.len(),
                idx < self.vars@.len(),
                forall|v: StandardValue| #[trigger]
                    proj@.contains(v) ==> self.surviving_projection(doms, idx as int).contains(
                        v,
                    ),
                forall|rr: int|
                    0 <= rr < r_idx && self.row_fits_elsewhere(doms, rr, idx as int)
                        ==> proj@.contains(self.data_set@[rr]@[idx as int]),
            decreases self.data_set@.len() - r_idx,
        {
            let row = &self.data_set[r_idx];
            let mut fits = true;
            let mut j: usize = 0;
            while j < self.vars.len()
                invariant
                    j <= self.vars@.len(),
                    fits <==> forall|jj: int|
                        0 <= jj < j && jj != idx ==> doms[self.vars@[jj]].contains(
                            self.data_set@[r_idx as int]@[jj],
                        ),
                decreases self.vars@.len() - j,
            {
                if j != idx {
                    let var = self.vars[j];
                    let d = solution.get_domain(var).unwrap();
                    if !d.contains(&row[j]) {
                        fits = false;
                    }
                }
                j += 1;
            }
            if fits {
                let v = row[idx];
                proof {
                    assert(self.row_fits_elsewhere(doms, r_idx as int, idx as int));
                    assert(self.surviving_projection(doms, idx as int).contains(v));
                }
                proj.push(v);
            }
            proof {
                assert(self.row_fits_elsewhere(doms, r_idx as int, idx as int) ==> fits) by {
                    if !fits {
                        let jj = choose|jj: int|
                            0 <= jj < self.vars@.len() && jj != idx && !doms[
                                self.vars@[jj]
                            ].contains(self.data_set@[r_idx as int]@[jj]);
                        assert(!self.row_fits_elsewhere(doms, r_idx as int, idx as int));
                    }
                }
            }
            r_idx += 1;
        }
        let target_dom = solution.get_domain(target).unwrap();
        let new_dom = target_dom.retain_values(&proj);
        proof {
            assert(proj@.to_set() =~= self.surviving_projection(doms, idx as int)) by {
                assert forall|v: StandardValue|
                    self.surviving_projection(doms, idx as int).contains(v)
                    implies proj@.contains(v) by {
                    let rr = choose|rr: int|
                        0 <= rr < self.data_set@.len() && self.data_set@[rr]@[idx as int] == v
                            && self.row_fits_elsewhere(doms, rr, idx as int);
                    assert(proj@.contains(self.data_set@[rr]@[idx as int]));
                }
            }
            assert(new_dom@ =~= doms[target].intersect(keep));
        }
        Ok(finish_revise(solution, target, new_dom, Ghost(keep)))
    }
}

} // verus!
