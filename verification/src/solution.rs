//! Taking back what the external collaborators return: the linear solver for
//! a steady problem, the time integrator for a semi-discrete one. Either
//! hands over a solution vector or fails; a solution vector has one entry per
//! grid node.

use vstd::prelude::*;
use crate::error::CollocationError;
use crate::grid::GridSpec;

verus! {

/// What a solve reports for the outcome of a collaborator: the failure
/// `failure` if the collaborator failed, `DegreeMismatch` if its vector has
/// not one entry per node, and the vector otherwise.
pub open spec fn accepted<T, E>(
    node_count: nat,
    outcome: Result<Vec<T>, E>,
    failure: CollocationError,
) -> Result<Vec<T>, CollocationError> {
    match outcome {
        Err(_) => Err(failure),
        Ok(field) => if field@.len() == node_count {
            Ok(field)
        } else {
            Err(CollocationError::DegreeMismatch)
        },
    }
}

/// Takes the outcome of the linear solver for a problem on the grid. A
/// failure of the solver, whatever it reports, is `SingularMatrix`.
pub fn accept_linear_solution<T, E>(grid: &GridSpec, outcome: Result<Vec<T>, E>) -> (solution:
    Result<Vec<T>, CollocationError>)
    ensures
        solution == accepted(grid.spec_node_count(), outcome, CollocationError::SingularMatrix),
{
    match outcome {
        Err(_) => Err(CollocationError::SingularMatrix),
        Ok(field) => {
            if field.len() == grid.node_count() {
                Ok(field)
            } else {
                Err(CollocationError::DegreeMismatch)
            }
        },
    }
}

/// Takes the outcome of the time integrator for a problem on the grid. A
/// failure of the integrator, whatever it reports, is `IntegrationFailure`.
pub fn accept_integration<T, E>(grid: &GridSpec, outcome: Result<Vec<T>, E>) -> (solution: Result<
    Vec<T>,
    CollocationError,
>)
    ensures
        solution == accepted(
            grid.spec_node_count(),
            outcome,
            CollocationError::IntegrationFailure,
        ),
{
    match outcome {
        Err(_) => Err(CollocationError::IntegrationFailure),
        Ok(field) => {
            if field.len() == grid.node_count() {
                Ok(field)
            } else {
                Err(CollocationError::DegreeMismatch)
            }
        },
    }
}

} // verus!
