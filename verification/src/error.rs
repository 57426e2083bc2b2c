//! Error types returned by the solver.
//!
//! Infeasibility is not an error: a solve that finds no assignment
//! reports success with an absent solution. These types cover
//! programming errors only, such as revising a variable outside a
//! constraint's scope or applying arithmetic to a value variant that
//! does not support it.

use vstd::prelude::*;

verus! {

/// A low-level solver error with a human-readable description.
#[derive(Debug)]
pub enum SolverError {
    /// A programming error, described in the message.
    Custom(String),
}

impl SolverError {
    /// What `message` returns.
    pub open spec fn message_spec(self) -> Seq<char> {
        match self {
            SolverError::Custom(s) => s@,
        }
    }

    /// The human-readable description of the error.
    pub fn message(&self) -> (r: String)
        ensures
            r@ == self.message_spec(),
    {
        match self {
            SolverError::Custom(s) => s.clone(),
        }
    }
}

/// The error type handed back to callers of the solver: the underlying
/// solver error together with a backtrace captured where the error was
/// wrapped.
#[derive(Debug)]
pub enum Error {
    /// Wraps a `SolverError`.
    Inner { inner: Box<SolverError>, backtrace: Box<String> },
}

impl Error {
    /// Wraps a solver error, capturing a backtrace at the point of the
    /// call.
    pub fn from_solver(inner: SolverError) -> (r: Error)
        ensures
            match r {
                Error::Inner { inner: i, .. } => *i == inner,
            },
    {
        Error::Inner { inner: Box::new(inner), backtrace: Box::new(capture_backtrace()) }
    }

    /// The description of the wrapped error.
    pub fn message(&self) -> (r: String)
        ensures
            match *self {
                Error::Inner { inner: i, .. } => r@ == i.message_spec(),
            },
    {
        match self {
            Error::Inner { inner, .. } => inner.message(),
        }
    }
}

/// Relies on std::backtrace::Backtrace::capture for a textual backtrace;
/// what it holds depends on the environment, so nothing is stated of it.
#[verifier::external_body]
fn capture_backtrace() -> String {
    std::backtrace::Backtrace::capture().to_string()
}

} // verus!
