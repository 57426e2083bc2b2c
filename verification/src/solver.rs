pub mod constraint;
pub mod constraints;
pub mod engine;
pub mod heuristics;
pub mod persist;
pub mod semantics;
pub mod solution;
pub mod strategy;
pub mod value;
pub mod work_list;
