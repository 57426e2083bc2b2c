//! Standard priority levels for constraints. Higher numbers are
//! processed first by the worklist. Custom numeric values may also be
//! used for finer-grained control.

use vstd::prelude::*;

use crate::solver::constraint::ConstraintPriority;

verus! {

/// The lowest priority, for constraints that are very cheap to run but
/// have minimal pruning power.
pub const LOW: ConstraintPriority = 10;

/// The default priority for most simple constraints.
pub const NORMAL: ConstraintPriority = 50;

/// For constraints that are more effective at pruning than average.
pub const HIGH: ConstraintPriority = 100;

/// The highest priority, for powerful global constraints that can
/// drastically reduce the search space.
pub const VERY_HIGH: ConstraintPriority = 200;

} // verus!
