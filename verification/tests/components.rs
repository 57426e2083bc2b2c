//! Component-level behaviour: values, domains, the worklist,
//! heuristics, restarts and errors.

use plico::error::{Error, SolverError};
use plico::solver::constraint::Constraint;
use plico::solver::constraints::abs_diff_not_equal::AbsoluteDifferenceNotEqualConstraint;
use plico::solver::constraints::not_equal::NotEqualConstraint;
use plico::solver::constraints::reified_equal::ReifiedEqualConstraint;
use plico::solver::constraints::sum_of::SumOfConstraint;
use plico::solver::engine::VariableId;
use plico::solver::heuristics::restart::{
    NoRestartPolicy, RestartAfterNBacktracks, RestartPolicy,
};
use plico::solver::heuristics::value::{
    DeterministicIdentityValueHeuristic, IdentityValueHeuristic, PreferUsedValuesHeuristic,
    StandardValueHeuristic, SwitchingValueHeuristic, ValueOrderingHeuristic,
};
use plico::solver::heuristics::variable::{
    RandomVariableHeuristic, SelectFirstHeuristic, VariableSelectionHeuristic,
};
use plico::solver::engine::{SearchStats, SolverEngine};
use plico::solver::semantics::{DomainSemantics, StandardSemantics};
use plico::solver::constraints::StandardConstraint;
use plico::solver::solution::{
    Domain, DomainRepresentation, HashSetDomain, OrderedDomain, RangeDomain, Solution,
};
use plico::solver::strategy::{BacktrackingSearch, RestartingSearch};
use plico::solver::value::{StandardValue, ValueArithmetic, ValueRange};
use plico::solver::work_list::WorkList;

fn int_val(i: i64) -> StandardValue {
    StandardValue::Int(i)
}

fn hash_domain(ints: &[i64]) -> Domain {
    let mut s = im::HashSet::new();
    for &i in ints {
        s.insert(int_val(i));
    }
    Domain::HashSet(HashSetDomain::new(s))
}

fn solution_of(entries: Vec<(VariableId, Domain)>) -> Solution {
    let mut m = im::HashMap::new();
    for (k, d) in entries {
        m.insert(k, d);
    }
    Solution::new(m, im::HashMap::new())
}

// --- StandardValue ---

#[test]
fn standard_value_arithmetic() {
    assert_eq!(int_val(2).add(&int_val(3)), Some(int_val(5)));
    assert_eq!(int_val(2).sub(&int_val(3)), Some(int_val(-1)));
    assert_eq!(int_val(-4).abs(), Some(int_val(4)));
    // Arithmetic on booleans is unsupported.
    assert_eq!(StandardValue::Bool(true).add(&int_val(1)), None);
    // Results outside the 64-bit range are unsupported.
    assert_eq!(int_val(i64::MAX).add(&int_val(1)), None);
    assert_eq!(int_val(i64::MIN).abs(), None);
}

#[test]
fn standard_value_range_capability() {
    assert_eq!(int_val(7).successor(), Some(int_val(8)));
    assert_eq!(int_val(i64::MAX).successor(), None);
    assert_eq!(int_val(3).distance(&int_val(10)), Some(7));
    assert_eq!(int_val(10).distance(&int_val(3)), Some(7));
    assert_eq!(StandardValue::Bool(false).successor(), None);
}

// --- Domains ---

#[test]
fn range_domain_construction() {
    assert!(RangeDomain::new(int_val(1), int_val(9)).is_some());
    assert!(RangeDomain::new(int_val(9), int_val(1)).is_none());
    assert!(RangeDomain::new(StandardValue::Bool(true), int_val(1)).is_none());
}

#[test]
fn range_domain_operations() {
    let d = Domain::Range(RangeDomain::new(int_val(1), int_val(5)).unwrap());
    assert_eq!(d.len(), 5);
    assert!(d.contains(&int_val(3)));
    assert!(!d.contains(&int_val(6)));
    assert_eq!(d.get_min_value(), Some(int_val(1)));
    assert_eq!(d.get_max_value(), Some(int_val(5)));

    // Two ranges intersect into a range.
    let e = Domain::Range(RangeDomain::new(int_val(3), int_val(9)).unwrap());
    let meet = d.intersect(&e);
    assert_eq!(meet.len(), 3);
    assert_eq!(meet.get_min_value(), Some(int_val(3)));
    assert_eq!(meet.get_max_value(), Some(int_val(5)));

    // Punching a hole degrades to a discrete representation.
    let punched = d.remove_values(&vec![int_val(3)]);
    assert_eq!(punched.len(), 4);
    assert!(!punched.contains(&int_val(3)));
    assert!(punched.contains(&int_val(2)));
}

#[test]
fn ordered_domain_operations() {
    let mut s = im::OrdSet::new();
    s.insert(int_val(4));
    s.insert(int_val(1));
    s.insert(int_val(9));
    let d = Domain::Ordered(OrderedDomain::new(s));
    assert_eq!(d.len(), 3);
    assert!(d.contains(&int_val(4)));
    assert!(!d.contains(&int_val(5)));
    assert_eq!(d.get_min_value(), Some(int_val(1)));
    assert_eq!(d.get_max_value(), Some(int_val(9)));
    assert!(!d.is_singleton());
    assert_eq!(d.get_singleton_value(), None);

    let kept = d.retain_values(&vec![int_val(4), int_val(5)]);
    assert_eq!(kept.len(), 1);
    assert_eq!(kept.get_singleton_value(), Some(int_val(4)));
}

#[test]
fn hash_domain_min_max_and_bounds() {
    let d = hash_domain(&[7, 2, 5]);
    assert_eq!(d.get_min_value(), Some(int_val(2)));
    assert_eq!(d.get_max_value(), Some(int_val(7)));
    let bounded = d.restrict_to_bounds(&int_val(3), &int_val(7));
    assert_eq!(bounded.len(), 2);
    assert!(bounded.contains(&int_val(5)));
    assert!(bounded.contains(&int_val(7)));

    let empty = hash_domain(&[]);
    assert!(empty.is_empty());
    assert_eq!(empty.get_min_value(), None);
}

// --- Solution ---

#[test]
fn solution_snapshots_share_structure() {
    let a: VariableId = 0;
    let b: VariableId = 1;
    let solution = solution_of(vec![(a, hash_domain(&[1, 2])), (b, hash_domain(&[3]))]);

    let narrowed = solution.set_domain(a, hash_domain(&[2]));
    // The parent snapshot is unchanged.
    assert_eq!(solution.get_domain(a).unwrap().len(), 2);
    assert_eq!(narrowed.get_domain(a).unwrap().len(), 1);
    assert_eq!(narrowed.get_domain(b).unwrap().len(), 1);

    let copy = narrowed.duplicate();
    assert_eq!(copy.get_domain(a).unwrap().len(), 1);
    assert!(!solution.is_complete());
    assert!(narrowed.is_complete());
}

// --- WorkList ---

#[test]
fn worklist_pops_highest_priority_first() {
    let mut wl = WorkList::new();
    wl.push_back(10, 1, 0);
    wl.push_back(200, 2, 1);
    wl.push_back(50, 3, 2);
    assert_eq!(wl.pop_front(), Some((2, 1)));
    assert_eq!(wl.pop_front(), Some((3, 2)));
    assert_eq!(wl.pop_front(), Some((1, 0)));
    assert_eq!(wl.pop_front(), None);
}

#[test]
fn worklist_suppresses_duplicates() {
    let mut wl = WorkList::new();
    wl.push_back(50, 1, 0);
    wl.push_back(50, 1, 0);
    assert_eq!(wl.pop_front(), Some((1, 0)));
    assert_eq!(wl.pop_front(), None);
    // After a pop the pair may be queued again.
    wl.push_back(50, 1, 0);
    assert_eq!(wl.pop_front(), Some((1, 0)));
    assert!(wl.is_empty());
}

// --- Heuristics ---

#[test]
fn select_first_picks_smallest_unassigned() {
    let solution = solution_of(vec![
        (3, hash_domain(&[1, 2])),
        (1, hash_domain(&[4])),
        (7, hash_domain(&[5, 6])),
    ]);
    assert_eq!(SelectFirstHeuristic.select_variable(&solution), Some(3));

    let done = solution_of(vec![(0, hash_domain(&[1])), (1, hash_domain(&[2]))]);
    assert_eq!(SelectFirstHeuristic.select_variable(&done), None);
}

#[test]
fn random_heuristic_picks_an_unassigned_variable() {
    let solution = solution_of(vec![
        (0, hash_domain(&[1])),
        (1, hash_domain(&[1, 2])),
        (2, hash_domain(&[3])),
    ]);
    // Only one variable is unassigned, so chance has one option.
    assert_eq!(RandomVariableHeuristic.select_variable(&solution), Some(1));
}

#[test]
fn deterministic_identity_orders_ascending() {
    let solution = solution_of(vec![(0, hash_domain(&[5, 1, 3]))]);
    let vals = DeterministicIdentityValueHeuristic.order_values(0, &solution);
    assert_eq!(vals, vec![int_val(1), int_val(3), int_val(5)]);
}

#[test]
fn identity_enumerates_the_domain() {
    let solution = solution_of(vec![(0, hash_domain(&[5, 1, 3]))]);
    let mut vals = IdentityValueHeuristic.order_values(0, &solution);
    vals.sort();
    assert_eq!(vals, vec![int_val(1), int_val(3), int_val(5)]);
}

#[test]
fn prefer_used_puts_assigned_values_first() {
    let solution = solution_of(vec![
        (0, hash_domain(&[1, 2, 3])),
        (1, hash_domain(&[3])),
        (2, hash_domain(&[9])),
    ]);
    let vals = PreferUsedValuesHeuristic.order_values(0, &solution);
    // 3 is used by another variable, so it comes first; the rest are
    // sorted.
    assert_eq!(vals, vec![int_val(3), int_val(1), int_val(2)]);
}

#[test]
fn switching_heuristic_dispatches_on_metadata() {
    let mut domains = im::HashMap::new();
    domains.insert(0u32, hash_domain(&[5, 1, 3]));
    let mut metadata = im::HashMap::new();
    metadata.insert(0u32, 7u32);
    let solution = Solution::new(domains, metadata);

    let switching = SwitchingValueHeuristic::new(
        vec![(
            7,
            StandardValueHeuristic::DeterministicIdentity(DeterministicIdentityValueHeuristic),
        )],
        StandardValueHeuristic::Identity(IdentityValueHeuristic),
    );
    let vals = switching.order_values(0, &solution);
    assert_eq!(vals, vec![int_val(1), int_val(3), int_val(5)]);
}

// --- Restart policies and restarting search ---

#[test]
fn restart_policies_consult_backtracks() {
    let mut stats = SearchStats::default();
    stats.backtracks = 5;
    assert!(!NoRestartPolicy.should_restart(&stats));
    assert!(RestartAfterNBacktracks { max_backtracks: 5 }.should_restart(&stats));
    assert!(!RestartAfterNBacktracks { max_backtracks: 6 }.should_restart(&stats));
}

#[test]
fn restarting_search_finds_a_solution() {
    let a: VariableId = 0;
    let b: VariableId = 1;
    let constraints = vec![NotEqualConstraint::new(a, b)];
    let initial = solution_of(vec![
        (a, hash_domain(&[1, 2])),
        (b, hash_domain(&[1])),
    ]);

    let inner = BacktrackingSearch::new(RandomVariableHeuristic, IdentityValueHeuristic);
    let engine = SolverEngine::new(RestartingSearch::new(
        inner,
        RestartAfterNBacktracks { max_backtracks: 10 },
    ));
    let (solution, _stats) = engine.solve(&constraints, initial).unwrap();
    let solution = solution.unwrap();
    assert!(solution.is_complete());
    assert_eq!(
        solution.get_domain(a).unwrap().get_singleton_value(),
        Some(int_val(2))
    );
}

// --- Semantics ---

#[test]
fn standard_semantics_builds_catalogue_constraints() {
    let definition = StandardConstraint::NotEqual(NotEqualConstraint::new(0, 1));
    let built = StandardSemantics.build_constraint(&definition);
    assert_eq!(built.variables(), &vec![0u32, 1u32]);
    assert_eq!(built.descriptor().name, "NotEqualConstraint");
    assert_eq!(built.descriptor().description, "?0 != ?1");
}

// --- Errors ---

#[test]
fn solver_error_carries_its_message() {
    let e = SolverError::Custom("wrong arity".to_string());
    assert_eq!(e.message(), "wrong arity");
    let wrapped = Error::from_solver(e);
    assert_eq!(wrapped.message(), "wrong arity");
}

#[test]
fn revise_errors_on_a_foreign_target() {
    // Revising a variable outside a constraint's scope is a
    // programming error, reported through the error arm.
    let constraint = ReifiedEqualConstraint::new(0, 1, 2);
    let solution = solution_of(vec![
        (0, hash_domain(&[0, 1])),
        (1, hash_domain(&[1, 2])),
        (2, hash_domain(&[1, 2])),
        (99, hash_domain(&[1])),
    ]);
    match constraint.revise(&99, &solution) {
        Err(e) => assert_eq!(
            e.message(),
            "ReifiedEqualConstraint revised with a variable not in the constraint: 99"
        ),
        Ok(_) => panic!("a foreign target must be an error"),
    }

    let sum = SumOfConstraint::new(vec![0, 1], 2);
    let solution2 = solution_of(vec![
        (0, hash_domain(&[1])),
        (1, hash_domain(&[2])),
        (2, hash_domain(&[3])),
        (7, hash_domain(&[1])),
    ]);
    assert!(sum.revise(&7, &solution2).is_err());
}

#[test]
fn abs_diff_errors_on_unsupported_arithmetic() {
    let x: VariableId = 0;
    let y: VariableId = 1;
    // A boolean difference makes the arithmetic unsupported.
    let constraint = AbsoluteDifferenceNotEqualConstraint::new(x, y, StandardValue::Bool(true));
    let solution = solution_of(vec![
        (x, hash_domain(&[1, 2])),
        (y, hash_domain(&[4])),
    ]);
    assert!(constraint.revise(&x, &solution).is_err());
}

#[test]
fn sum_of_errors_on_unsupported_arithmetic() {
    let t1: VariableId = 0;
    let t2: VariableId = 1;
    let s: VariableId = 2;
    let constraint = SumOfConstraint::new(vec![t1, t2], s);
    let mut bools = im::HashSet::new();
    bools.insert(StandardValue::Bool(true));
    let solution = solution_of(vec![
        (t1, hash_domain(&[1, 2])),
        (t2, Domain::HashSet(HashSetDomain::new(bools))),
        (s, hash_domain(&[5, 6])),
    ]);
    assert!(constraint.revise(&s, &solution).is_err());
}
