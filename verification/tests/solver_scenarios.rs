//! End-to-end scenarios: solving whole problems through the engine.

use plico::solver::constraint::Constraint;
use plico::solver::constraints::abs_diff_not_equal::AbsoluteDifferenceNotEqualConstraint;
use plico::solver::constraints::all_different::AllDifferentConstraint;
use plico::solver::constraints::not_equal::NotEqualConstraint;
use plico::solver::constraints::sum_of::SumOfConstraint;
use plico::solver::constraints::StandardConstraint;
use plico::solver::engine::{SearchStats, SolverEngine, VariableId};
use plico::solver::heuristics::value::DeterministicIdentityValueHeuristic;
use plico::solver::heuristics::variable::{
    MinimumRemainingValuesHeuristic, SelectFirstHeuristic,
};
use plico::solver::solution::{
    Domain, DomainRepresentation, HashSetDomain, RangeDomain, Solution,
};
use plico::solver::strategy::{BacktrackingSearch, PropagationOnlySearch};
use plico::solver::value::StandardValue;

fn int_val(i: i64) -> StandardValue {
    StandardValue::Int(i)
}

fn domain_from_slice(ints: &[i64]) -> Domain {
    let mut s = im::HashSet::new();
    for &i in ints {
        s.insert(int_val(i));
    }
    Domain::HashSet(HashSetDomain::new(s))
}

fn solution_of(entries: Vec<(VariableId, Domain)>) -> Solution {
    let mut m = im::HashMap::new();
    for (k, d) in entries {
        m.insert(k, d);
    }
    Solution::new(m, im::HashMap::new())
}

fn assigned(sol: &Solution, v: VariableId) -> i64 {
    match sol.get_domain(v).unwrap().get_singleton_value().unwrap() {
        StandardValue::Int(i) => i,
        StandardValue::Bool(_) => panic!("expected an integer assignment"),
    }
}

fn backtracking_engine() -> SolverEngine<
    BacktrackingSearch<SelectFirstHeuristic, DeterministicIdentityValueHeuristic>,
> {
    SolverEngine::new(BacktrackingSearch::new(
        SelectFirstHeuristic,
        DeterministicIdentityValueHeuristic,
    ))
}

#[test]
fn not_equal_pinpointing() {
    // D(A)={1,2}, D(B)={1}, A != B: solving pins A to 2 and leaves B
    // at 1.
    let a: VariableId = 0;
    let b: VariableId = 1;
    let constraints = vec![NotEqualConstraint::new(a, b)];
    let initial = solution_of(vec![
        (a, domain_from_slice(&[1, 2])),
        (b, domain_from_slice(&[1])),
    ]);

    let engine = backtracking_engine();
    let (solution, _stats) = engine.solve(&constraints, initial).unwrap();
    let solution = solution.unwrap();

    assert!(solution.is_complete());
    assert_eq!(assigned(&solution, a), 2);
    assert_eq!(assigned(&solution, b), 1);
}

#[test]
fn map_colouring_australia() {
    // Seven regions, three colours, the mainland adjacency graph.
    let wa: VariableId = 0;
    let nt: VariableId = 1;
    let sa: VariableId = 2;
    let q: VariableId = 3;
    let nsw: VariableId = 4;
    let v: VariableId = 5;
    let t: VariableId = 6;
    let regions = [wa, nt, sa, q, nsw, v, t];
    let adjacency = [
        (wa, nt),
        (wa, sa),
        (nt, sa),
        (nt, q),
        (sa, q),
        (sa, nsw),
        (sa, v),
        (q, nsw),
        (nsw, v),
    ];

    let constraints: Vec<NotEqualConstraint> = adjacency
        .iter()
        .map(|&(x, y)| NotEqualConstraint::new(x, y))
        .collect();
    let initial = solution_of(
        regions
            .iter()
            .map(|&r| (r, domain_from_slice(&[0, 1, 2])))
            .collect(),
    );

    let engine = backtracking_engine();
    let (solution, _stats) = engine.solve(&constraints, initial).unwrap();
    let solution = solution.unwrap();

    // Every domain in the solution is a singleton.
    assert!(solution.is_complete());
    for &r in &regions {
        assert!(solution.get_domain(r).unwrap().is_singleton());
    }
    // Every adjacent pair maps to distinct colours.
    for &(x, y) in &adjacency {
        assert_ne!(assigned(&solution, x), assigned(&solution, y));
    }
    // The solution is a fixed point: every revision reports
    // "unchanged".
    for c in &constraints {
        for var in c.variables() {
            assert!(c.revise(var, &solution).unwrap().is_none());
        }
    }
}

#[test]
fn n_queens_eight() {
    // Eight queens: columns 0..7, one variable per row holding the
    // queen's column.
    let n: u32 = 8;
    let mut constraints: Vec<StandardConstraint> = Vec::new();
    constraints.push(StandardConstraint::AllDifferent(AllDifferentConstraint::new(
        (0..n).collect(),
    )));
    for i in 0..n {
        for j in (i + 1)..n {
            constraints.push(StandardConstraint::AbsDiffNotEqual(
                AbsoluteDifferenceNotEqualConstraint::new(i, j, int_val((j - i) as i64)),
            ));
        }
    }
    let initial = solution_of(
        (0..n)
            .map(|r| (r, domain_from_slice(&[0, 1, 2, 3, 4, 5, 6, 7])))
            .collect(),
    );

    let engine = SolverEngine::new(BacktrackingSearch::new(
        MinimumRemainingValuesHeuristic,
        DeterministicIdentityValueHeuristic,
    ));
    let (solution, _stats) = engine.solve(&constraints, initial).unwrap();
    let solution = solution.unwrap();

    assert!(solution.is_complete());
    let placement: Vec<i64> = (0..n).map(|r| assigned(&solution, r)).collect();
    for i in 0..(n as usize) {
        for j in (i + 1)..(n as usize) {
            assert_ne!(placement[i], placement[j]);
            assert_ne!((placement[i] - placement[j]).abs(), (j - i) as i64);
        }
    }
}

#[test]
fn magic_square_three_by_three() {
    // Nine cells holding a permutation of 1..9; every row, column and
    // diagonal sums to 15, held in a pinned sum variable.
    let cells: Vec<VariableId> = (0..9).collect();
    let fifteen: VariableId = 9;
    let lines: [[usize; 3]; 8] = [
        [0, 1, 2],
        [3, 4, 5],
        [6, 7, 8],
        [0, 3, 6],
        [1, 4, 7],
        [2, 5, 8],
        [0, 4, 8],
        [2, 4, 6],
    ];

    let mut constraints: Vec<StandardConstraint> = Vec::new();
    constraints.push(StandardConstraint::AllDifferent(AllDifferentConstraint::new(
        cells.clone(),
    )));
    for line in &lines {
        let terms: Vec<VariableId> = line.iter().map(|&i| cells[i]).collect();
        constraints.push(StandardConstraint::SumOf(SumOfConstraint::new(terms, fifteen)));
    }

    let mut entries: Vec<(VariableId, Domain)> = cells
        .iter()
        .map(|&c| (c, domain_from_slice(&[1, 2, 3, 4, 5, 6, 7, 8, 9])))
        .collect();
    entries.push((fifteen, domain_from_slice(&[15])));
    let initial = solution_of(entries);

    let engine = SolverEngine::new(BacktrackingSearch::new(
        MinimumRemainingValuesHeuristic,
        DeterministicIdentityValueHeuristic,
    ));
    let (solution, _stats) = engine.solve(&constraints, initial).unwrap();
    let solution = solution.unwrap();

    assert!(solution.is_complete());
    let mut values: Vec<i64> = cells.iter().map(|&c| assigned(&solution, c)).collect();
    for line in &lines {
        let sum: i64 = line.iter().map(|&i| values[i]).sum();
        assert_eq!(sum, 15);
    }
    values.sort();
    assert_eq!(values, vec![1, 2, 3, 4, 5, 6, 7, 8, 9]);
}

#[test]
fn unsolvable_sudoku() {
    // A 9x9 grid whose first row holds two fixed 5s cannot be solved.
    let var = |r: u32, c: u32| -> VariableId { r * 9 + c };
    let mut constraints: Vec<StandardConstraint> = Vec::new();
    for r in 0..9 {
        let row: Vec<VariableId> = (0..9).map(|c| var(r, c)).collect();
        constraints.push(StandardConstraint::AllDifferent(AllDifferentConstraint::new(row)));
    }
    for c in 0..9 {
        let col: Vec<VariableId> = (0..9).map(|r| var(r, c)).collect();
        constraints.push(StandardConstraint::AllDifferent(AllDifferentConstraint::new(col)));
    }
    for br in 0..3 {
        for bc in 0..3 {
            let mut square: Vec<VariableId> = Vec::new();
            for r in 0..3 {
                for c in 0..3 {
                    square.push(var(br * 3 + r, bc * 3 + c));
                }
            }
            constraints.push(StandardConstraint::AllDifferent(AllDifferentConstraint::new(
                square,
            )));
        }
    }

    let mut entries: Vec<(VariableId, Domain)> = Vec::new();
    for r in 0..9 {
        for c in 0..9 {
            let d = if r == 0 && (c == 0 || c == 1) {
                domain_from_slice(&[5])
            } else {
                domain_from_slice(&[1, 2, 3, 4, 5, 6, 7, 8, 9])
            };
            entries.push((var(r, c), d));
        }
    }
    let initial = solution_of(entries);

    let engine = backtracking_engine();
    let (solution, stats) = engine.solve(&constraints, initial).unwrap();
    assert!(
        solution.is_none(),
        "a solution was found for an unsolvable grid"
    );
    // The two pinned 5s share a row constraint, so the very first
    // propagation pass wipes a domain out: the contradiction is found
    // before any branching, and no backtrack is ever taken.
    assert_eq!(stats.backtracks, 0);
}

#[test]
fn budget_arc_consistency() {
    // Six interval domains linked by one sum constraint: propagation
    // alone tightens the bounds exactly as interval arithmetic
    // predicts.
    let food: VariableId = 0;
    let rent: VariableId = 1;
    let utilities: VariableId = 2;
    let transport: VariableId = 3;
    let savings: VariableId = 4;
    let total: VariableId = 5;

    let range = |lo: i64, hi: i64| -> Domain {
        Domain::Range(RangeDomain::new(int_val(lo), int_val(hi)).unwrap())
    };

    let constraints = vec![SumOfConstraint::new(
        vec![food, rent, utilities, transport, savings],
        total,
    )];
    let initial = solution_of(vec![
        (food, range(20000, 80000)),
        (rent, range(120000, 150000)),
        (utilities, range(5000, 10000)),
        (transport, range(0, 20000)),
        (savings, range(0, 50000)),
        (total, range(0, 200000)),
    ]);

    let engine = SolverEngine::new(PropagationOnlySearch::new());
    let (solution, _stats) = engine.solve(&constraints, initial).unwrap();
    let solution = solution.unwrap();

    // Food's upper bound drops from 80000 to 75000: rent takes at
    // least 120000 and utilities at least 5000 out of at most 200000.
    let food_dom = solution.get_domain(food).unwrap();
    assert_eq!(food_dom.get_max_value().unwrap(), int_val(75000));
    assert_eq!(food_dom.get_min_value().unwrap(), int_val(20000));

    // The total's lower bound rises to the sum of the minima.
    let total_dom = solution.get_domain(total).unwrap();
    assert_eq!(total_dom.get_min_value().unwrap(), int_val(145000));
    assert_eq!(total_dom.get_max_value().unwrap(), int_val(200000));
}

#[test]
fn deterministic_runs_match() {
    // With the deterministic heuristics, two runs on identical inputs
    // return identical solutions and identical counters.
    let build = || {
        let initial = solution_of(vec![
            (0, domain_from_slice(&[2, 0, 1])),
            (1, domain_from_slice(&[1, 0])),
            (2, domain_from_slice(&[0, 2])),
        ]);
        let constraints = vec![
            NotEqualConstraint::new(0, 1),
            NotEqualConstraint::new(1, 2),
            NotEqualConstraint::new(0, 2),
        ];
        backtracking_engine().solve(&constraints, initial).unwrap()
    };
    let (first, first_stats) = build();
    let (second, second_stats) = build();
    let first = first.unwrap();
    let second = second.unwrap();
    for v in 0..3 {
        assert_eq!(assigned(&first, v), assigned(&second, v));
    }
    assert_eq!(first_stats.nodes_visited, second_stats.nodes_visited);
    assert_eq!(first_stats.backtracks, second_stats.backtracks);
}

#[test]
fn propagation_only_reports_stats() {
    // A propagation pass records revisions for the constraint it ran.
    let a: VariableId = 0;
    let b: VariableId = 1;
    let constraints = vec![NotEqualConstraint::new(a, b)];
    let initial = solution_of(vec![
        (a, domain_from_slice(&[1, 2])),
        (b, domain_from_slice(&[1])),
    ]);

    let engine = SolverEngine::new(PropagationOnlySearch::new());
    let mut stats = SearchStats::default();
    let outcome = engine
        .arc_consistency(&constraints, initial, &mut stats)
        .unwrap();
    let solution = outcome.unwrap();

    assert_eq!(assigned(&solution, a), 2);
    assert!(stats.constraint_stats[0].revisions >= 2);
    assert_eq!(stats.constraint_stats[0].prunings, 1);
    // Propagation alone visits no search nodes and never backtracks.
    assert_eq!(stats.nodes_visited, 0);
    assert_eq!(stats.backtracks, 0);
}
