//! The fundamental trait for all constraints in the solver.
//!
//! A constraint owns an ordered list of variables, a priority, a
//! descriptor for diagnostics, and a revision procedure. Revision is a
//! pure function from a target variable and a solution to an outcome:
//! unchanged, a new solution in which the target's domain is strictly
//! pruned, or an error for programming mistakes.

use vstd::prelude::*;

use crate::error::{Error, SolverError};
use crate::solver::engine::VariableId;
use crate::solver::solution::{Domain, DomainRepresentation, Solution};
use crate::solver::value::StandardValue;

pub mod priority;

verus! {

/// The priority of a constraint: the worklist pops higher numbers
/// first.
pub type ConstraintPriority = u32;

/// Metadata about a constraint instance, for logging and statistics.
#[derive(Debug, Clone)]
pub struct ConstraintDescriptor {
    /// The general name of the constraint type.
    pub name: String,
    /// A human-readable summary of this instance.
    pub description: String,
}

/// Relies on u32::to_string: the decimal rendering of the number.
/// Used only to build human-readable diagnostics.
#[verifier::external_body]
pub(crate) fn u32_to_string(n: u32) -> String {
    n.to_string()
}

/// Copies a string slice into an owned string.
pub(crate) fn string_of(s: &str) -> (r: String)
    ensures
        r@ == s@,
{
    <String as vstd::string::StringExecFns>::from_str(s)
}

/// Appends `?<variable>` to a description under construction.
pub(crate) fn push_var(out: &mut String, v: VariableId) {
    vstd::string::StringExecFns::append(out, "?");
    vstd::string::StringExecFns::append(out, u32_to_string(v).as_str());
}

/// Appends a literal piece to a description under construction.
pub(crate) fn push_str(out: &mut String, s: &str) {
    vstd::string::StringExecFns::append(out, s);
}

/// Whether a vector of variable identifiers holds the given one.
#[verifier::loop_isolation(false)]
pub(crate) fn contains_var(vars: &Vec<VariableId>, x: VariableId) -> (r: bool)
    ensures
        r == vars@.contains(x),
{
    let mut i: usize = 0;
    while i < vars.len()
        invariant
            i <= vars@.len(),
            forall|j: int| 0 <= j < i ==> vars@[j] != x,
        decreases vars@.len() - i,
    {
        if vars[i] == x {
            return true;
        }
        i += 1;
    }
    false
}

/// Copies a vector of variable identifiers.
#[verifier::loop_isolation(false)]
pub(crate) fn copy_vars(v: &Vec<VariableId>) -> (r: Vec<VariableId>)
    ensures
        r@ == v@,
{
    let mut out: Vec<VariableId> = Vec::new();
    let mut i: usize = 0;
    while i < v.len()
        invariant
            i <= v@.len(),
            out@ == v@.take(i as int),
        decreases v@.len() - i,
    {
        proof {
            assert(v@.take(i + 1) =~= v@.take(i as int).push(v@[i as int]));
        }
        out.push(v[i]);
        i += 1;
    }
    proof {
        assert(v@.take(v@.len() as int) =~= v@);
    }
    out
}

/// The fundamental trait for all constraints.
///
/// The revision contract is stated through two specification
/// functions. `keep_set` gives, for a target variable and the current
/// domains, the set of values the constraint allows the target to
/// keep: revising prunes the target's domain to its intersection with
/// that set, and reports "unchanged" exactly when nothing would be
/// removed. `revise_err` tells on which inputs revision fails instead.
/// Neither may depend on the target's own domain, which
/// `lemma_keep_frame` captures; the propagation engine relies on it to
/// reach a true fixed point.
pub trait Constraint: Sized {
    /// The variables the constraint involves.
    spec fn vars_spec(&self) -> Seq<VariableId>;

    /// The constraint's internal well-formedness.
    spec fn wf(&self) -> bool;

    /// What `priority` returns.
    spec fn priority_spec(&self) -> ConstraintPriority;

    /// The set of values the constraint allows the target variable to
    /// keep, given the current domains.
    spec fn keep_set(&self, target: VariableId, doms: Map<VariableId, Set<StandardValue>>) -> Set<
        StandardValue,
    >;

    /// The inputs on which `revise` returns an error.
    spec fn revise_err(&self, target: VariableId, doms: Map<VariableId, Set<StandardValue>>) -> bool;

    /// `keep_set` and `revise_err` depend only on the domains of the
    /// constraint's own variables other than the target.
    proof fn lemma_keep_frame(
        &self,
        target: VariableId,
        d1: Map<VariableId, Set<StandardValue>>,
        d2: Map<VariableId, Set<StandardValue>>,
    )
        requires
            self.wf(),
            self.vars_spec().contains(target),
            forall|v: VariableId| #![trigger self.vars_spec().contains(v)]
                self.vars_spec().contains(v) && v != target ==> d1.dom().contains(v)
                    && d2.dom().contains(v) && d1[v] == d2[v],
        ensures
            self.keep_set(target, d1) == self.keep_set(target, d2),
            self.revise_err(target, d1) == self.revise_err(target, d2),
    ;

    /// The keep set never excludes a complete assignment drawn from
    /// the current domains: tightening every variable's domain to a
    /// single candidate value can only tighten the keep set.
    proof fn lemma_keep_antitone(
        &self,
        target: VariableId,
        d1: Map<VariableId, Set<StandardValue>>,
        d2: Map<VariableId, Set<StandardValue>>,
    )
        requires
            self.wf(),
            self.vars_spec().contains(target),
            forall|v: VariableId| #![trigger self.vars_spec().contains(v)]
                self.vars_spec().contains(v) ==> d1.dom().contains(v) && d2.dom().contains(v)
                    && d2[v].subset_of(d1[v]) && d2[v].finite() && d2[v].len() == 1,
        ensures
            self.keep_set(target, d2).subset_of(self.keep_set(target, d1)),
    ;

    /// The ordered list of variables this constraint operates on.
    fn variables(&self) -> (r: &Vec<VariableId>)
        ensures
            r@ == self.vars_spec(),
    ;

    /// The priority of the constraint, read by the worklist at push
    /// time.
    fn priority(&self) -> (r: ConstraintPriority)
        ensures
            r == self.priority_spec(),
    ;

    /// A descriptor with a human-readable summary of the instance.
    fn descriptor(&self) -> ConstraintDescriptor;

    /// Revises the domain of `target_var` against the current
    /// solution.
    ///
    /// Returns `Ok(None)` when the target's domain is already
    /// consistent (nothing to prune), `Ok(Some(new))` when the
    /// target's domain was strictly pruned — the new solution differs
    /// from `solution` only there — and `Err` on the inputs
    /// `revise_err` describes, among them every target variable the
    /// constraint does not involve.
    fn revise(&self, target_var: &VariableId, solution: &Solution) -> (r: Result<
        Option<Solution>,
        Error,
    >)
        requires
            self.wf(),
            solution.wf(),
            forall|v: VariableId| #![trigger self.vars_spec().contains(v)]
                self.vars_spec().contains(v) ==> solution.doms().dom().contains(v),
        ensures
            match r {
                Result::Ok(outcome) => {
                    &&& !self.revise_err(*target_var, solution.doms())
                    &&& match outcome {
                        Option::None => solution.doms()[*target_var].subset_of(
                            self.keep_set(*target_var, solution.doms()),
                        ),
                        Option::Some(new) => {
                            &&& new.wf()
                            &&& !solution.doms()[*target_var].subset_of(
                                self.keep_set(*target_var, solution.doms()),
                            )
                            &&& new.doms() == solution.doms().insert(
                                *target_var,
                                solution.doms()[*target_var].intersect(
                                    self.keep_set(*target_var, solution.doms()),
                                ),
                            )
                            &&& new.meta() == solution.meta()
                        },
                    }
                },
                Result::Err(_) => self.revise_err(*target_var, solution.doms()),
            },
    ;
}

/// The error a revision reports when aimed at a variable outside the
/// constraint's scope.
pub(crate) fn foreign_target_error(name: &str, target: VariableId) -> Error {
    let mut message = string_of(name);
    push_str(&mut message, " revised with a variable not in the constraint: ");
    vstd::string::StringExecFns::append(&mut message, u32_to_string(target).as_str());
    Error::from_solver(SolverError::Custom(message))
}

/// The common tail of every revision: given the pruned domain of the
/// target (its old domain intersected with the constraint's keep set),
/// report "unchanged" when nothing was removed, and otherwise build
/// the new solution.
pub(crate) fn finish_revise(
    solution: &Solution,
    target: VariableId,
    new_dom: Domain,
    Ghost(keep): Ghost<Set<StandardValue>>,
) -> (r: Option<Solution>)
    requires
        solution.wf(),
        solution.dmap().dom().contains(target),
        new_dom.inv(),
        new_dom@ == solution.doms()[target].intersect(keep),
    ensures
        match r {
            Option::Some(new) => {
                &&& new.wf()
                &&& !solution.doms()[target].subset_of(keep)
                &&& new.doms() == solution.doms().insert(
                    target,
                    solution.doms()[target].intersect(keep),
                )
                &&& new.meta() == solution.meta()
            },
            Option::None => solution.doms()[target].subset_of(keep),
        },
{
    let old_dom = solution.get_domain(target).unwrap();
    let old_len = old_dom.len();
    let new_len = new_dom.len();
    proof {
        assert(solution.doms()[target] == old_dom@);
    }
    if new_len < old_len {
        proof {
            if solution.doms()[target].subset_of(keep) {
                assert(new_dom@ =~= solution.doms()[target]);
            }
        }
        let r = solution.set_domain(target, new_dom);
        proof {
            assert(r.doms() =~= solution.doms().insert(
                target,
                solution.doms()[target].intersect(keep),
            ));
            assert forall|k: u32| #[trigger] r.dmap().dom().contains(k) implies r.dmap()[k].inv() by {
                if k != target {
                    assert(solution.dmap().dom().contains(k));
                }
            }
        }
        Some(r)
    } else {
        proof {
            let od = solution.doms()[target];
            vstd::set_lib::lemma_len_subset(od.intersect(keep), od);
            vstd::set_lib::lemma_subset_equality(od.intersect(keep), od);
            assert(od.subset_of(keep)) by {
                assert forall|x: StandardValue| od.contains(x) implies keep.contains(x) by {
                    assert(od.intersect(keep).contains(x));
                }
            }
        }
        None
    }
}

} // verus!
