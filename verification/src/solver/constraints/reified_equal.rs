//! A constraint that reifies an equality relationship: `B <==> (X == Y)`.

use vstd::prelude::*;

use crate::error::Error;
use crate::solver::constraint::{
    contains_var, finish_revise, foreign_target_error, priority, push_str, push_var, string_of, Constraint, ConstraintDescriptor,
    ConstraintPriority,
};
use crate::solver::constraints::boolean_or::pinned_to;
use crate::solver::engine::VariableId;
use crate::solver::solution::{DomainRepresentation, Solution};
use crate::solver::value::StandardValue;

verus! {

/// Enforces `?b <==> (?x == ?y)`.
///
/// Propagation works in all directions: a pinned `b` constrains `x`
/// and `y`; domains of `x` and `y` that are provably equal or provably
/// disjoint pin `b`.
#[derive(Debug, Clone)]
pub struct ReifiedEqualConstraint {
    /// The boolean variable reifying the equality.
    pub b: VariableId,
    /// The left-hand variable of the equality.
    pub x: VariableId,
    /// The right-hand variable of the equality.
    pub y: VariableId,
    /// All three variables, in the order `b, x, y`.
    pub vars: Vec<VariableId>,
}

impl ReifiedEqualConstraint {
    /// Creates a new constraint enforcing `?b <==> (?x == ?y)`.
    pub fn new(b: VariableId, x: VariableId, y: VariableId) -> (r: Self)
        ensures
            r.b == b && r.x == x && r.y == y,
            r.vars@ == seq![b, x, y],
            r.wf() <==> (b != x && b != y && x != y),
    {
        let r = ReifiedEqualConstraint { b, x, y, vars: vec![b, x, y] };
        proof {
            assert(r.vars@ =~= seq![b, x, y]);
        }
        r
    }

    /// A set holding exactly one value.
    pub open spec fn is_singleton_set(s: Set<StandardValue>) -> bool {
        s.finite() && s.len() == 1
    }

    /// The keep set when the target is `x` or `y` and the other data
    /// variable's domain is `od`.
    pub open spec fn keep_xy(
        &self,
        bd: Set<StandardValue>,
        od: Set<StandardValue>,
    ) -> Set<StandardValue> {
        if pinned_to(bd, StandardValue::Bool(true)) {
            od
        } else if pinned_to(bd, StandardValue::Bool(false)) && Self::is_singleton_set(od) {
            Set::new(|v: StandardValue| !od.contains(v))
        } else {
            Set::new(|v: StandardValue| true)
        }
    }

    /// The keep set when the target is `b`.
    pub open spec fn keep_b(
        &self,
        xd: Set<StandardValue>,
        yd: Set<StandardValue>,
    ) -> Set<StandardValue> {
        if xd.intersect(yd) == Set::<StandardValue>::empty() {
            Set::empty().insert(StandardValue::Bool(false))
        } else if Self::is_singleton_set(xd) && Self::is_singleton_set(yd) && xd == yd {
            Set::empty().insert(StandardValue::Bool(true))
        } else {
            Set::new(|v: StandardValue| true)
        }
    }
}

impl Constraint for ReifiedEqualConstraint {
    open spec fn vars_spec(&self) -> Seq<VariableId> {
        self.vars@
    }

    open spec fn wf(&self) -> bool {
        &&& self.vars@ == seq![self.b, self.x, self.y]
        &&& self.b != self.x
        &&& self.b != self.y
        &&& self.x != self.y
    }

    open spec fn priority_spec(&self) -> ConstraintPriority {
        priority::NORMAL
    }

    open spec fn keep_set(
        &self,
        target: VariableId,
        doms: Map<VariableId, Set<StandardValue>>,
    ) -> Set<StandardValue> {
        if target == self.b {
            self.keep_b(doms[self.x], doms[self.y])
        } else if target == self.x {
            self.keep_xy(doms[self.b], doms[self.y])
        } else {
            self.keep_xy(doms[self.b], doms[self.x])
        }
    }

    open spec fn revise_err(
        &self,
        target: VariableId,
        doms: Map<VariableId, Set<StandardValue>>,
    ) -> bool {
        !self.vars_spec().contains(target)
    }

    proof fn lemma_keep_frame(
        &self,
        target: VariableId,
        d1: Map<VariableId, Set<StandardValue>>,
        d2: Map<VariableId, Set<StandardValue>>,
    ) {
        assert(self.vars_spec()[0] == self.b);
        assert(self.vars_spec()[1] == self.x);
        assert(self.vars_spec()[2] == self.y);
        assert(self.vars_spec().contains(self.b));
        assert(self.vars_spec().contains(self.x));
        assert(self.vars_spec().contains(self.y));
        if target == self.b {
            assert(d1[self.x] == d2[self.x] && d1[self.y] == d2[self.y]);
        } else if target == self.x {
            assert(d1[self.b] == d2[self.b] && d1[self.y] == d2[self.y]);
        } else {
            assert(target == self.y) by {
                let j = choose|j: int|
                    0 <= j < self.vars@.len() && self.vars@[j] == target;
                assert(j == 0 || j == 1 || j == 2);
            }
            assert(d1[self.b] == d2[self.b] && d1[self.x] == d2[self.x]);
        }
    }


    proof fn lemma_keep_antitone(
        &self,
        target: VariableId,
        d1: Map<VariableId, Set<StandardValue>>,
        d2: Map<VariableId, Set<StandardValue>>,
    ) {
        assert(self.vars_spec()[0] == self.b);
        assert(self.vars_spec()[1] == self.x);
        assert(self.vars_spec()[2] == self.y);
        assert(self.vars_spec().contains(self.b));
        assert(self.vars_spec().contains(self.x));
        assert(self.vars_spec().contains(self.y));
        if target == self.b {
            let x1 = d1[self.x];
            let y1 = d1[self.y];
            let x2 = d2[self.x];
            let y2 = d2[self.y];
            if x1.intersect(y1) == Set::<StandardValue>::empty() {
                assert(x2.intersect(y2) =~= Set::<StandardValue>::empty()) by {
                    assert forall|v: StandardValue| !x2.intersect(y2).contains(v) by {
                        if x2.intersect(y2).contains(v) {
                            assert(x1.intersect(y1).contains(v));
                        }
                    }
                }
            } else if Self::is_singleton_set(x1) && Self::is_singleton_set(y1) && x1 == y1 {
                vstd::set_lib::lemma_subset_equality(x2, x1);
                vstd::set_lib::lemma_subset_equality(y2, y1);
            } else {
                assert forall|v: StandardValue|
                    self.keep_set(target, d2).contains(v) implies self.keep_set(
                    target,
                    d1,
                ).contains(v) by {}
            }
        } else {
            let other = if target == self.x {
                self.y
            } else {
                self.x
            };
            if target != self.x {
                assert(target == self.y) by {
                    let j = choose|j: int|
                        0 <= j < self.vars@.len() && self.vars@[j] == target;
                    assert(j == 0 || j == 1 || j == 2);
                }
            }
            let b1 = d1[self.b];
            let o1 = d1[other];
            if pinned_to(b1, StandardValue::Bool(true)) {
                vstd::set_lib::lemma_subset_equality(d2[self.b], b1);
                assert(d2[other].subset_of(d1[other]));
            } else if pinned_to(b1, StandardValue::Bool(false)) && Self::is_singleton_set(o1) {
                vstd::set_lib::lemma_subset_equality(d2[self.b], b1);
                vstd::set_lib::lemma_subset_equality(d2[other], o1);
            } else {
                assert forall|v: StandardValue|
                    self.keep_set(target, d2).contains(v) implies self.keep_set(
                    target,
                    d1,
                ).contains(v) by {}
            }
        }
    }

    fn variables(&self) -> (r: &Vec<VariableId>) {
        &self.vars
    }

    fn priority(&self) -> (r: ConstraintPriority) {
        priority::NORMAL
    }

    fn descriptor(&self) -> ConstraintDescriptor {
        let mut description = String::new();
        push_var(&mut description, self.b);
        push_str(&mut description, " <==> (");
        push_var(&mut description, self.x);
        push_str(&mut description, " == ");
        push_var(&mut description, self.y);
        push_str(&mut description, ")");
        ConstraintDescriptor { name: string_of("ReifiedEqualConstraint"), description }
    }

    fn revise(&self, target_var: &VariableId, solution: &Solution) -> (r: Result<
        Option<Solution>,
        Error,
    >) {
        let target = *target_var;
        if !contains_var(&self.vars, target) {
            proof {
                assert(!self.vars_spec().contains(target));
            }
            return Err(foreign_target_error("ReifiedEqualConstraint", target));
        }
        proof {
            assert(self.vars_spec().contains(target));
        }
        proof {
            assert(self.vars_spec()[0] == self.b);
            assert(self.vars_spec()[1] == self.x);
            assert(self.vars_spec()[2] == self.y);
            assert(self.vars_spec().contains(self.b));
            assert(self.vars_spec().contains(self.x));
            assert(self.vars_spec().contains(self.y));
            if target != self.b && target != self.x {
                let j = choose|j: int|
                    0 <= j < self.vars@.len() && self.vars@[j] == target;
                assert(j == 0 || j == 1 || j == 2);
                assert(target == self.y);
            }
        }
        let ghost doms = solution.doms();
        let ghost keep = self.keep_set(target, doms);
        if target == self.b {
            let x_dom = solution.get_domain(self.x).unwrap();
            let y_dom = solution.get_domain(self.y).unwrap();
            let b_dom = solution.get_domain(self.b).unwrap();
            let meet = x_dom.intersect(y_dom);
            if meet.is_empty() {
                proof {
                    doms[self.x].intersect(doms[self.y]).lemma_len0_is_empty();
                }
                let keep_vals = vec![StandardValue::Bool(false)];
                let new_dom = b_dom.retain_values(&keep_vals);
                proof {
                    assert(keep_vals@.to_set() =~= Set::empty().insert(
                        StandardValue::Bool(false),
                    )) by {
                        assert(keep_vals@[0] == StandardValue::Bool(false));
                        assert(keep_vals@.contains(StandardValue::Bool(false)));
                    }
                    assert(new_dom@ =~= doms[target].intersect(keep));
                }
                return Ok(finish_revise(solution, target, new_dom, Ghost(keep)));
            }
            proof {
                assert(doms[self.x].intersect(doms[self.y])
                    != Set::<StandardValue>::empty()) by {
                    assert(meet@.len() != 0);
                    if doms[self.x].intersect(doms[self.y]) == Set::<StandardValue>::empty() {
                        assert(meet@.len() == 0);
                    }
                }
            }
            if x_dom.is_singleton() && y_dom.is_singleton() {
                let xv = x_dom.get_singleton_value().unwrap();
                let yv = y_dom.get_singleton_value().unwrap();
                if xv == yv {
                    proof {
                        assert(doms[self.x] =~= doms[self.y]);
                    }
                    let keep_vals = vec![StandardValue::Bool(true)];
                    let new_dom = b_dom.retain_values(&keep_vals);
                    proof {
                        assert(keep_vals@.to_set() =~= Set::empty().insert(
                            StandardValue::Bool(true),
                        )) by {
                            assert(keep_vals@[0] == StandardValue::Bool(true));
                            assert(keep_vals@.contains(StandardValue::Bool(true)));
                        }
                        assert(new_dom@ =~= doms[target].intersect(keep));
                    }
                    return Ok(finish_revise(solution, target, new_dom, Ghost(keep)));
                }
                proof {
                    assert(doms[self.x] != doms[self.y]) by {
                        assert(doms[self.x].contains(xv));
                        if doms[self.x] == doms[self.y] {
                            assert(doms[self.y].contains(xv));
                            assert(xv == yv);
                        }
                    }
                    assert(doms[target].subset_of(keep));
                }
                return Ok(None);
            }
            proof {
                assert(!(Self::is_singleton_set(doms[self.x]) && Self::is_singleton_set(
                    doms[self.y],
                ) && doms[self.x] == doms[self.y]));
                assert(doms[target].subset_of(keep));
            }
            return Ok(None);
        }
        let (data_target, other_var) = if target == self.x {
            (self.x, self.y)
        } else {
            (self.y, self.x)
        };
        let b_dom = solution.get_domain(self.b).unwrap();
        let other_dom = solution.get_domain(other_var).unwrap();
        let target_dom = solution.get_domain(data_target).unwrap();
        let b_is_singleton = b_dom.is_singleton();
        let mut b_true = false;
        let mut b_false = false;
        if b_is_singleton {
            let bv = b_dom.get_singleton_value().unwrap();
            if bv == StandardValue::Bool(true) {
                b_true = true;
            }
            if bv == StandardValue::Bool(false) {
                b_false = true;
            }
        }
        proof {
            assert(b_true == pinned_to(doms[self.b], StandardValue::Bool(true)));
            assert(b_false == pinned_to(doms[self.b], StandardValue::Bool(false)));
        }
        if b_true {
            let new_dom = target_dom.intersect(other_dom);
            proof {
                assert(new_dom@ =~= doms[target].intersect(keep));
            }
            return Ok(finish_revise(solution, target, new_dom, Ghost(keep)));
        }
        if b_false && other_dom.is_singleton() {
            let ov = other_dom.get_singleton_value().unwrap();
            let rem = vec![ov];
            let new_dom = target_dom.remove_values(&rem);
            proof {
                assert(rem@.to_set() =~= doms[other_var]) by {
                    assert(rem@[0] == ov);
                    assert(rem@.contains(ov));
                }
                assert(new_dom@ =~= doms[target].intersect(keep));
            }
            return Ok(finish_revise(solution, target, new_dom, Ghost(keep)));
        }
        proof {
            assert(doms[target].subset_of(keep));
        }
        Ok(None)
    }
}

} // verus!
