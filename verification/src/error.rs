//! The failures a collocation solve can report.

use vstd::prelude::*;

verus! {

/// Why a grid, a constraint set or a solve was rejected.
#[derive(Clone, Copy, Debug, PartialEq, Eq, Structural)]
pub enum CollocationError {
    /// The polynomial degree is below one, or too large to index its nodes.
    InvalidDegree,
    /// A field or an operator does not have one entry per grid node.
    DegreeMismatch,
    /// A boundary index does not name a grid node.
    BoundaryIndexOutOfRange,
    /// The linear solver found the assembled matrix singular.
    SingularMatrix,
    /// The time integrator gave up before reaching the final time.
    IntegrationFailure,
}

impl CollocationError {
    /// The text that `message` returns for each failure.
    pub open spec fn message_text(self) -> Seq<char> {
        match self {
            CollocationError::InvalidDegree => "the polynomial degree must be at least 1"@,
            CollocationError::DegreeMismatch => "the number of entries must equal the degree plus one"@,
            CollocationError::BoundaryIndexOutOfRange => "a boundary index must not exceed the degree"@,
            CollocationError::SingularMatrix => "the collocation matrix is singular"@,
            CollocationError::IntegrationFailure => "the time integration failed"@,
        }
    }

    /// A one-line description for reports.
    pub fn message(&self) -> (text: &'static str)
        ensures
            text@ == self.message_text(),
    {
        match self {
            CollocationError::InvalidDegree => "the polynomial degree must be at least 1",
            CollocationError::DegreeMismatch => "the number of entries must equal the degree plus one",
            CollocationError::BoundaryIndexOutOfRange => "a boundary index must not exceed the degree",
            CollocationError::SingularMatrix => "the collocation matrix is singular",
            CollocationError::IntegrationFailure => "the time integration failed",
        }
    }
}

} // verus!
