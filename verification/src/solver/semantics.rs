//! The trait that binds a problem domain to the generic solver.
//!
//! A semantics is the user-supplied bundle that turns declarative
//! constraint definitions into runnable constraint objects. One
//! semantics value is shared, read-only, across a whole solve.

use vstd::prelude::*;

use crate::solver::constraint::Constraint;
use crate::solver::constraints::StandardConstraint;

verus! {

/// The frontend for a specific problem domain: a factory from
/// constraint definitions to runnable constraints.
pub trait DomainSemantics {
    /// The declarative description of a single constraint, typically a
    /// sum type.
    type ConstraintDefinition;

    /// The runnable constraint the factory builds.
    type BuiltConstraint: Constraint;

    /// Builds a runnable constraint from its definition.
    fn build_constraint(&self, definition: &Self::ConstraintDefinition) -> Self::BuiltConstraint;
}

/// The semantics of the built-in catalogue: definitions are the
/// catalogue constraints themselves.
#[derive(Debug, Clone)]
pub struct StandardSemantics;

impl DomainSemantics for StandardSemantics {
    type ConstraintDefinition = StandardConstraint;

    type BuiltConstraint = StandardConstraint;

    fn build_constraint(&self, definition: &StandardConstraint) -> StandardConstraint {
        definition.clone()
    }
}

} // verus!
