//! A generic finite-domain constraint satisfaction (CSP) solver.
//!
//! Given a set of variables, each with a finite domain of candidate values,
//! and a set of constraints relating those variables, the solver either
//! returns an assignment mapping every variable to a single value that
//! satisfies all constraints, or reports that no such assignment exists.
//!
//! The core is an AC-3-style propagation engine driven by a priority
//! worklist, combined with a backtracking depth-first search that is
//! pluggable with variable- and value-ordering heuristics.

pub mod error;
pub mod solver;
