//! Revision behaviour of every built-in constraint.

use plico::solver::constraint::Constraint;
use plico::solver::constraints::abs_diff_not_equal::AbsoluteDifferenceNotEqualConstraint;
use plico::solver::constraints::all_different::AllDifferentConstraint;
use plico::solver::constraints::boolean_or::BooleanOrConstraint;
use plico::solver::constraints::equal::EqualConstraint;
use plico::solver::constraints::not_equal::NotEqualConstraint;
use plico::solver::constraints::reified_and::ReifiedAndConstraint;
use plico::solver::constraints::reified_equal::ReifiedEqualConstraint;
use plico::solver::constraints::reified_member_of::ReifiedMemberOfConstraint;
use plico::solver::constraints::reified_or::ReifiedOrConstraint;
use plico::solver::constraints::sum_of::SumOfConstraint;
use plico::solver::engine::VariableId;
use plico::solver::solution::{Domain, DomainRepresentation, HashSetDomain, Solution};
use plico::solver::value::StandardValue;

fn int_val(i: i64) -> StandardValue {
    StandardValue::Int(i)
}

fn bool_val(b: bool) -> StandardValue {
    StandardValue::Bool(b)
}

fn hash_domain(vals: &[StandardValue]) -> Domain {
    let mut s = im::HashSet::new();
    for v in vals {
        s.insert(*v);
    }
    Domain::HashSet(HashSetDomain::new(s))
}

fn domain_from_slice(ints: &[i64]) -> Domain {
    let vals: Vec<StandardValue> = ints.iter().map(|&i| int_val(i)).collect();
    hash_domain(&vals)
}

fn domain_from_bools(bools: &[bool]) -> Domain {
    let vals: Vec<StandardValue> = bools.iter().map(|&b| bool_val(b)).collect();
    hash_domain(&vals)
}

fn bool_domain() -> Domain {
    domain_from_bools(&[true, false])
}

fn solution_of(entries: Vec<(VariableId, Domain)>) -> Solution {
    let mut m = im::HashMap::new();
    for (k, d) in entries {
        m.insert(k, d);
    }
    Solution::new(m, im::HashMap::new())
}

fn domain_set(sol: &Solution, v: VariableId) -> im::HashSet<StandardValue> {
    let d = sol.get_domain(v).unwrap();
    d.values().into_iter().collect()
}

fn int_set(ints: &[i64]) -> im::HashSet<StandardValue> {
    ints.iter().map(|&i| int_val(i)).collect()
}

// --- AbsoluteDifferenceNotEqualConstraint ---

#[test]
fn revise_prunes_values_when_other_is_singleton() {
    let x: VariableId = 0;
    let y: VariableId = 1;
    let c = int_val(2);
    let constraint = AbsoluteDifferenceNotEqualConstraint::new(x, y, c);

    let solution = solution_of(vec![
        (x, domain_from_slice(&[1, 2, 3, 4, 5, 6, 7])),
        (y, domain_from_slice(&[4])),
    ]);

    // Revise x. y is singleton 4, C is 2.
    // Values to remove from x are 4+2=6 and 4-2=2.
    let new_solution = constraint.revise(&x, &solution).unwrap().unwrap();
    assert_eq!(domain_set(&new_solution, x), int_set(&[1, 3, 4, 5, 7]));
}

#[test]
fn revise_does_nothing_if_other_is_not_singleton() {
    let x: VariableId = 0;
    let y: VariableId = 1;
    let c = int_val(2);
    let constraint = AbsoluteDifferenceNotEqualConstraint::new(x, y, c);

    let solution = solution_of(vec![
        (x, domain_from_slice(&[1, 2, 3, 4, 5, 6, 7])),
        (y, domain_from_slice(&[4, 5])),
    ]);

    let result = constraint.revise(&x, &solution).unwrap();
    assert!(result.is_none());
}

#[test]
fn revise_does_nothing_if_no_values_to_prune() {
    let x: VariableId = 0;
    let y: VariableId = 1;
    let c = int_val(2);
    let constraint = AbsoluteDifferenceNotEqualConstraint::new(x, y, c);

    let solution = solution_of(vec![
        (x, domain_from_slice(&[1, 3, 4, 5, 7])),
        (y, domain_from_slice(&[4])),
    ]);

    let result = constraint.revise(&x, &solution).unwrap();
    assert!(result.is_none());
}

#[test]
fn revise_handles_description_correctly() {
    let x: VariableId = 10;
    let y: VariableId = 20;
    let c = int_val(1);
    let constraint = AbsoluteDifferenceNotEqualConstraint::new(x, y, c);
    assert_eq!(constraint.descriptor().description, "abs(?10 - ?20) != 1");

    let c2 = int_val(5);
    let constraint2 = AbsoluteDifferenceNotEqualConstraint::new(x, y, c2);
    assert_eq!(constraint2.descriptor().description, "abs(?10 - ?20) != 1");
}

// --- AllDifferentConstraint ---

#[test]
fn revise_prunes_singleton_value_from_peers() {
    let v1: VariableId = 0;
    let v2: VariableId = 1;
    let v3: VariableId = 2;
    let constraint = AllDifferentConstraint::new(vec![v1, v2, v3]);

    let solution = solution_of(vec![
        (v1, domain_from_slice(&[1, 2])),
        (v2, domain_from_slice(&[1])),
        (v3, domain_from_slice(&[1, 3])),
    ]);

    // Revise v1, it should have v2's value (1) removed.
    let new_solution = constraint.revise(&v1, &solution).unwrap().unwrap();
    assert_eq!(domain_set(&new_solution, v1), int_set(&[2]));
    assert!(new_solution.get_domain(v1).unwrap().is_singleton());
}

#[test]
fn revise_does_nothing_if_no_singletons() {
    let v1: VariableId = 0;
    let v2: VariableId = 1;
    let constraint = AllDifferentConstraint::new(vec![v1, v2]);

    let solution = solution_of(vec![
        (v1, domain_from_slice(&[1, 2])),
        (v2, domain_from_slice(&[1, 2])),
    ]);

    let result = constraint.revise(&v1, &solution).unwrap();
    assert!(result.is_none());
}

#[test]
fn revise_works_with_multiple_singletons_to_prune() {
    let v1: VariableId = 0;
    let v2: VariableId = 1;
    let v3: VariableId = 2;
    let constraint = AllDifferentConstraint::new(vec![v1, v2, v3]);

    let solution = solution_of(vec![
        (v1, domain_from_slice(&[1, 2, 3])),
        (v2, domain_from_slice(&[1])),
        (v3, domain_from_slice(&[2])),
    ]);

    let new_solution = constraint.revise(&v1, &solution).unwrap().unwrap();
    assert_eq!(domain_set(&new_solution, v1), int_set(&[3]));
    assert!(new_solution.get_domain(v1).unwrap().is_singleton());
}

// --- BooleanOrConstraint ---

#[test]
fn revise_forces_last_variable_to_be_true() {
    let b1: VariableId = 0;
    let b2: VariableId = 1;
    let b3: VariableId = 2;
    let constraint = BooleanOrConstraint::new(vec![b1, b2, b3]);

    let solution = solution_of(vec![
        (b1, domain_from_bools(&[false])),
        (b2, domain_from_bools(&[false])),
        (b3, bool_domain()),
    ]);

    let new_solution = constraint.revise(&b3, &solution).unwrap().unwrap();
    let new_b3_domain = new_solution.get_domain(b3).unwrap();

    assert!(new_b3_domain.is_singleton());
    assert_eq!(new_b3_domain.get_singleton_value().unwrap(), bool_val(true));
}

#[test]
fn revise_does_nothing_if_one_var_is_already_true() {
    let b1: VariableId = 0;
    let b2: VariableId = 1;
    let b3: VariableId = 2;
    let constraint = BooleanOrConstraint::new(vec![b1, b2, b3]);

    let solution = solution_of(vec![
        (b1, domain_from_bools(&[false])),
        (b2, domain_from_bools(&[true])),
        (b3, bool_domain()),
    ]);

    let result = constraint.revise(&b3, &solution).unwrap();
    assert!(result.is_none());
}

#[test]
fn revise_does_nothing_if_multiple_vars_could_be_true() {
    let b1: VariableId = 0;
    let b2: VariableId = 1;
    let b3: VariableId = 2;
    let constraint = BooleanOrConstraint::new(vec![b1, b2, b3]);

    let solution = solution_of(vec![
        (b1, domain_from_bools(&[false])),
        (b2, bool_domain()),
        (b3, bool_domain()),
    ]);

    let result = constraint.revise(&b1, &solution).unwrap();
    assert!(result.is_none());
}

#[test]
fn boolean_or_revise_does_nothing_if_already_consistent() {
    let b1: VariableId = 0;
    let b2: VariableId = 1;
    let b3: VariableId = 2;
    let constraint = BooleanOrConstraint::new(vec![b1, b2, b3]);

    let solution = solution_of(vec![
        (b1, domain_from_bools(&[false])),
        (b2, domain_from_bools(&[false])),
        (b3, domain_from_bools(&[true])),
    ]);

    let result = constraint.revise(&b3, &solution).unwrap();
    assert!(result.is_none());
}

// --- EqualConstraint ---

#[test]
fn revise_prunes_target_domain_to_intersection() {
    let a: VariableId = 0;
    let b: VariableId = 1;
    let constraint = EqualConstraint::new(a, b);

    let solution = solution_of(vec![
        (a, domain_from_slice(&[1, 2, 3])),
        (b, domain_from_slice(&[2, 3, 4])),
    ]);

    let new_solution = constraint.revise(&a, &solution).unwrap().unwrap();
    assert_eq!(new_solution.get_domain(a).unwrap().len(), 2);
    assert_eq!(domain_set(&new_solution, a), int_set(&[2, 3]));
}

#[test]
fn equal_revise_does_nothing_if_already_consistent() {
    let a: VariableId = 0;
    let b: VariableId = 1;
    let constraint = EqualConstraint::new(a, b);

    let solution = solution_of(vec![
        (a, domain_from_slice(&[2, 3])),
        (b, domain_from_slice(&[2, 3, 4])),
    ]);

    let result = constraint.revise(&a, &solution).unwrap();
    assert!(result.is_none());
}

// --- NotEqualConstraint ---

#[test]
fn revise_removes_value_when_other_var_is_singleton() {
    let a: VariableId = 0;
    let b: VariableId = 1;
    let constraint = NotEqualConstraint::new(a, b);

    let solution = solution_of(vec![
        (a, domain_from_slice(&[1, 2, 3])),
        (b, domain_from_slice(&[2])),
    ]);

    let new_solution = constraint.revise(&a, &solution).unwrap().unwrap();
    assert_eq!(new_solution.get_domain(a).unwrap().len(), 2);
    assert_eq!(domain_set(&new_solution, a), int_set(&[1, 3]));
}

#[test]
fn revise_does_nothing_when_other_var_is_not_singleton() {
    let a: VariableId = 0;
    let b: VariableId = 1;
    let constraint = NotEqualConstraint::new(a, b);

    let solution = solution_of(vec![
        (a, domain_from_slice(&[1, 2, 3])),
        (b, domain_from_slice(&[2, 4])),
    ]);

    let result = constraint.revise(&a, &solution).unwrap();
    assert!(result.is_none());
}

// --- ReifiedEqualConstraint ---

#[test]
fn revise_b_when_xy_are_equal_singletons() {
    let b: VariableId = 0;
    let x: VariableId = 1;
    let y: VariableId = 2;
    let constraint = ReifiedEqualConstraint::new(b, x, y);

    let solution = solution_of(vec![
        (b, bool_domain()),
        (x, domain_from_slice(&[5])),
        (y, domain_from_slice(&[5])),
    ]);

    let new_solution = constraint.revise(&b, &solution).unwrap().unwrap();
    let new_b_domain = new_solution.get_domain(b).unwrap();

    assert!(new_b_domain.is_singleton());
    assert_eq!(new_b_domain.get_singleton_value().unwrap(), bool_val(true));
}

#[test]
fn revise_b_when_xy_are_disjoint() {
    let b: VariableId = 0;
    let x: VariableId = 1;
    let y: VariableId = 2;
    let constraint = ReifiedEqualConstraint::new(b, x, y);

    let solution = solution_of(vec![
        (b, bool_domain()),
        (x, domain_from_slice(&[1, 2])),
        (y, domain_from_slice(&[3, 4])),
    ]);

    let new_solution = constraint.revise(&b, &solution).unwrap().unwrap();
    let new_b_domain = new_solution.get_domain(b).unwrap();

    assert!(new_b_domain.is_singleton());
    assert_eq!(new_b_domain.get_singleton_value().unwrap(), bool_val(false));
}

#[test]
fn revise_x_when_b_is_true() {
    let b: VariableId = 0;
    let x: VariableId = 1;
    let y: VariableId = 2;
    let constraint = ReifiedEqualConstraint::new(b, x, y);

    let solution = solution_of(vec![
        (b, domain_from_bools(&[true])),
        (x, domain_from_slice(&[1, 2, 3])),
        (y, domain_from_slice(&[2, 3, 4])),
    ]);

    let new_solution = constraint.revise(&x, &solution).unwrap().unwrap();
    assert_eq!(new_solution.get_domain(x).unwrap().len(), 2);
    assert_eq!(domain_set(&new_solution, x), int_set(&[2, 3]));
}

#[test]
fn revise_x_when_b_is_false_and_y_is_singleton() {
    let b: VariableId = 0;
    let x: VariableId = 1;
    let y: VariableId = 2;
    let constraint = ReifiedEqualConstraint::new(b, x, y);

    let solution = solution_of(vec![
        (b, domain_from_bools(&[false])),
        (x, domain_from_slice(&[1, 2, 3])),
        (y, domain_from_slice(&[2])),
    ]);

    let new_solution = constraint.revise(&x, &solution).unwrap().unwrap();
    assert_eq!(new_solution.get_domain(x).unwrap().len(), 2);
    assert_eq!(domain_set(&new_solution, x), int_set(&[1, 3]));
}

// --- ReifiedMemberOfConstraint ---

#[test]
fn revise_propagates_from_b_to_vars() {
    let b = 0;
    let v1 = 1;
    let v2 = 2;

    let data_set = vec![
        vec![int_val(1), int_val(10)],
        vec![int_val(2), int_val(20)],
        vec![int_val(3), int_val(10)],
    ];

    let constraint = ReifiedMemberOfConstraint::new(b, vec![v1, v2], data_set);

    let solution = solution_of(vec![
        (b, domain_from_bools(&[true])),
        (v1, domain_from_slice(&[1, 2, 3, 4, 5])),
        (v2, domain_from_slice(&[10, 20, 30, 40])),
    ]);

    // Revision prunes one target at a time: first the tuple's first
    // variable, then, from the result, the second.
    let new_solution = constraint.revise(&v1, &solution).unwrap().unwrap();
    assert_eq!(domain_set(&new_solution, v1), int_set(&[1, 2, 3]));

    let new_solution2 = constraint.revise(&v2, &new_solution).unwrap().unwrap();
    assert_eq!(domain_set(&new_solution2, v2), int_set(&[10, 20]));
}

#[test]
fn revise_propagates_from_vars_to_b() {
    let b = 0;
    let v1 = 1;
    let v2 = 2;

    let data_set = vec![vec![int_val(1), int_val(10)], vec![int_val(2), int_val(20)]];

    let constraint = ReifiedMemberOfConstraint::new(b, vec![v1, v2], data_set);

    let solution = solution_of(vec![
        (b, bool_domain()),
        (v1, domain_from_slice(&[3, 4])),
        (v2, domain_from_slice(&[10, 20])),
    ]);

    let new_solution = constraint.revise(&b, &solution).unwrap().unwrap();
    let new_b_domain = new_solution.get_domain(b).unwrap();
    assert!(new_b_domain.is_singleton());
    assert_eq!(new_b_domain.get_singleton_value().unwrap(), bool_val(false));
}

#[test]
fn revise_does_nothing_if_no_new_info() {
    let b = 0;
    let v1 = 1;
    let v2 = 2;

    let data_set = vec![vec![int_val(1), int_val(10)], vec![int_val(2), int_val(20)]];

    let constraint = ReifiedMemberOfConstraint::new(b, vec![v1, v2], data_set);

    // Case 1: the tuple variables are consistent, B is undetermined.
    let solution1 = solution_of(vec![
        (b, bool_domain()),
        (v1, domain_from_slice(&[1, 3])),
        (v2, domain_from_slice(&[10, 30])),
    ]);
    assert!(constraint.revise(&b, &solution1).unwrap().is_none());

    // Case 2: B is true, but the tuple variables are already
    // consistent.
    let solution2 = solution_of(vec![
        (b, domain_from_bools(&[true])),
        (v1, domain_from_slice(&[1, 2])),
        (v2, domain_from_slice(&[10, 20])),
    ]);
    assert!(constraint.revise(&v1, &solution2).unwrap().is_none());
}

// --- ReifiedAndConstraint ---

#[test]
fn reified_and_propagates_from_inputs_to_output() {
    let b_out = 0;
    let b_in1 = 1;
    let b_in2 = 2;
    let constraint = ReifiedAndConstraint::new(b_out, vec![b_in1, b_in2]);

    // All inputs true: the output is forced true.
    let solution = solution_of(vec![
        (b_out, bool_domain()),
        (b_in1, domain_from_bools(&[true])),
        (b_in2, domain_from_bools(&[true])),
    ]);
    let new_solution = constraint.revise(&b_out, &solution).unwrap().unwrap();
    let d = new_solution.get_domain(b_out).unwrap();
    assert!(d.is_singleton());
    assert_eq!(d.get_singleton_value().unwrap(), bool_val(true));

    // Some input false: the output is forced false.
    let solution2 = solution_of(vec![
        (b_out, bool_domain()),
        (b_in1, domain_from_bools(&[false])),
        (b_in2, bool_domain()),
    ]);
    let new_solution2 = constraint.revise(&b_out, &solution2).unwrap().unwrap();
    let d2 = new_solution2.get_domain(b_out).unwrap();
    assert!(d2.is_singleton());
    assert_eq!(d2.get_singleton_value().unwrap(), bool_val(false));
}

#[test]
fn reified_and_propagates_from_output_to_inputs() {
    let b_out = 0;
    let b_in1 = 1;
    let b_in2 = 2;
    let constraint = ReifiedAndConstraint::new(b_out, vec![b_in1, b_in2]);

    // A true output forces every input true, one target at a time.
    let solution = solution_of(vec![
        (b_out, domain_from_bools(&[true])),
        (b_in1, bool_domain()),
        (b_in2, bool_domain()),
    ]);
    let new_solution = constraint.revise(&b_in1, &solution).unwrap().unwrap();
    let d1 = new_solution.get_domain(b_in1).unwrap();
    assert!(d1.is_singleton());
    assert_eq!(d1.get_singleton_value().unwrap(), bool_val(true));

    // A false output alone pins no input.
    let solution2 = solution_of(vec![
        (b_out, domain_from_bools(&[false])),
        (b_in1, bool_domain()),
        (b_in2, bool_domain()),
    ]);
    assert!(constraint.revise(&b_in1, &solution2).unwrap().is_none());
}

// --- ReifiedOrConstraint ---

#[test]
fn revise_propagates_from_input_to_output_true() {
    let b_out = 0;
    let b_in1 = 1;
    let b_in2 = 2;
    let constraint = ReifiedOrConstraint::new(b_out, vec![b_in1, b_in2]);

    let solution = solution_of(vec![
        (b_out, bool_domain()),
        (b_in1, domain_from_bools(&[true])),
        (b_in2, domain_from_bools(&[false])),
    ]);

    let new_solution = constraint.revise(&b_out, &solution).unwrap().unwrap();
    let new_b_out_domain = new_solution.get_domain(b_out).unwrap();
    assert!(new_b_out_domain.is_singleton());
    assert_eq!(
        new_b_out_domain.get_singleton_value().unwrap(),
        bool_val(true)
    );
}

#[test]
fn revise_propagates_from_input_to_output_false() {
    let b_out = 0;
    let b_in1 = 1;
    let b_in2 = 2;
    let constraint = ReifiedOrConstraint::new(b_out, vec![b_in1, b_in2]);

    let solution = solution_of(vec![
        (b_out, bool_domain()),
        (b_in1, domain_from_bools(&[false])),
        (b_in2, domain_from_bools(&[false])),
    ]);

    let new_solution = constraint.revise(&b_out, &solution).unwrap().unwrap();
    let new_b_out_domain = new_solution.get_domain(b_out).unwrap();
    assert!(new_b_out_domain.is_singleton());
    assert_eq!(
        new_b_out_domain.get_singleton_value().unwrap(),
        bool_val(false)
    );
}

#[test]
fn revise_propagates_from_output_to_inputs_false() {
    let b_out = 0;
    let b_in1 = 1;
    let b_in2 = 2;
    let constraint = ReifiedOrConstraint::new(b_out, vec![b_in1, b_in2]);

    let solution = solution_of(vec![
        (b_out, domain_from_bools(&[false])),
        (b_in1, bool_domain()),
        (b_in2, bool_domain()),
    ]);

    // Revision prunes one target at a time: each input in turn.
    let new_solution = constraint.revise(&b_in1, &solution).unwrap().unwrap();
    let new_b_in1_domain = new_solution.get_domain(b_in1).unwrap();
    assert!(new_b_in1_domain.is_singleton());
    assert_eq!(
        new_b_in1_domain.get_singleton_value().unwrap(),
        bool_val(false)
    );

    let new_solution2 = constraint.revise(&b_in2, &new_solution).unwrap().unwrap();
    let new_b_in2_domain = new_solution2.get_domain(b_in2).unwrap();
    assert!(new_b_in2_domain.is_singleton());
    assert_eq!(
        new_b_in2_domain.get_singleton_value().unwrap(),
        bool_val(false)
    );
}

#[test]
fn revise_does_nothing_if_insufficient_info() {
    let b_out = 0;
    let b_in1 = 1;
    let b_in2 = 2;
    let constraint = ReifiedOrConstraint::new(b_out, vec![b_in1, b_in2]);

    // Case 1: the output is true, the inputs are ambiguous.
    let solution1 = solution_of(vec![
        (b_out, domain_from_bools(&[true])),
        (b_in1, bool_domain()),
        (b_in2, bool_domain()),
    ]);
    assert!(constraint.revise(&b_in1, &solution1).unwrap().is_none());

    // Case 2: the output is ambiguous, one input false, one ambiguous.
    let solution2 = solution_of(vec![
        (b_out, bool_domain()),
        (b_in1, domain_from_bools(&[false])),
        (b_in2, bool_domain()),
    ]);
    assert!(constraint.revise(&b_out, &solution2).unwrap().is_none());
}

// --- SumOfConstraint ---

#[test]
fn revise_sum_variable_prunes_domain() {
    let t1: VariableId = 0;
    let t2: VariableId = 1;
    let s: VariableId = 2;
    let constraint = SumOfConstraint::new(vec![t1, t2], s);

    let solution = solution_of(vec![
        (t1, domain_from_slice(&[1, 2])),
        (t2, domain_from_slice(&[3, 4])),
        (s, domain_from_slice(&[0, 1, 2, 3, 4, 5, 6, 7, 8, 9, 10])),
    ]);

    let new_solution = constraint.revise(&s, &solution).unwrap().unwrap();
    assert_eq!(domain_set(&new_solution, s), int_set(&[4, 5, 6]));
}

#[test]
fn revise_term_variable_prunes_domain() {
    let t1: VariableId = 0;
    let t2: VariableId = 1;
    let s: VariableId = 2;
    let constraint = SumOfConstraint::new(vec![t1, t2], s);

    let solution = solution_of(vec![
        (t1, domain_from_slice(&[1, 2])),
        (t2, domain_from_slice(&[0, 1, 2, 3, 4, 5, 6, 7, 8, 9, 10])),
        (s, domain_from_slice(&[5, 6])),
    ]);

    let new_solution = constraint.revise(&t2, &solution).unwrap().unwrap();
    assert_eq!(domain_set(&new_solution, t2), int_set(&[3, 4, 5]));
}

#[test]
fn sum_of_revise_does_nothing_if_already_consistent() {
    let t1: VariableId = 0;
    let t2: VariableId = 1;
    let s: VariableId = 2;
    let constraint = SumOfConstraint::new(vec![t1, t2], s);

    let solution = solution_of(vec![
        (t1, domain_from_slice(&[1, 2])),
        (t2, domain_from_slice(&[3, 4])),
        (s, domain_from_slice(&[4, 5, 6])),
    ]);

    let result = constraint.revise(&s, &solution).unwrap();
    assert!(result.is_none());

    let result2 = constraint.revise(&t1, &solution).unwrap();
    assert!(result2.is_none());
}

#[test]
fn revise_does_nothing_if_any_term_domain_is_empty() {
    let t1: VariableId = 0;
    let t2: VariableId = 1;
    let s: VariableId = 2;
    let constraint = SumOfConstraint::new(vec![t1, t2], s);

    let solution = solution_of(vec![
        (t1, domain_from_slice(&[])),
        (t2, domain_from_slice(&[3, 4])),
        (s, domain_from_slice(&[0, 1, 2, 3, 4, 5, 6, 7, 8, 9, 10])),
    ]);

    let result = constraint.revise(&s, &solution).unwrap();
    assert!(result.is_none());
}
