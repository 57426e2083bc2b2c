//! Heuristics guiding the search: variable selection, value ordering,
//! and restart policies.

pub mod restart;
pub mod value;
pub mod variable;
