use spectral_collocation::error::CollocationError;
use spectral_collocation::grid::{GridSpec, GridType};
use spectral_collocation::solution::{accept_integration, accept_linear_solution};

fn grid(degree: usize) -> GridSpec {
    GridSpec::new(degree, GridType::ChebyshevGaussLobatto).unwrap()
}

#[test]
fn solved_field_of_the_grid_is_handed_on() {
    let solved: Result<Vec<f64>, &str> = Ok(vec![0.0, 0.5, 0.25, 0.0]);
    assert_eq!(accept_linear_solution(&grid(3), solved), Ok(vec![0.0, 0.5, 0.25, 0.0]));
    let integrated: Result<Vec<f64>, &str> = Ok(vec![0.0, -0.5, 0.0]);
    assert_eq!(accept_integration(&grid(2), integrated), Ok(vec![0.0, -0.5, 0.0]));
}

#[test]
fn failed_linear_solve_is_a_singular_matrix() {
    let failed: Result<Vec<f64>, &str> = Err("the matrix is singular");
    assert_eq!(accept_linear_solution(&grid(3), failed), Err(CollocationError::SingularMatrix));
    let other: Result<Vec<f64>, i32> = Err(-3);
    assert_eq!(accept_linear_solution(&grid(3), other), Err(CollocationError::SingularMatrix));
}

#[test]
fn failed_integration_is_an_integration_failure() {
    let failed: Result<Vec<f64>, &str> = Err("too many rejected steps");
    assert_eq!(accept_integration(&grid(3), failed), Err(CollocationError::IntegrationFailure));
}

#[test]
fn field_of_another_grid_is_a_mismatch() {
    let short: Result<Vec<f64>, &str> = Ok(vec![0.0, 1.0, 0.0]);
    assert_eq!(accept_linear_solution(&grid(3), short), Err(CollocationError::DegreeMismatch));
    let long: Result<Vec<f64>, &str> = Ok(vec![0.0; 6]);
    assert_eq!(accept_integration(&grid(3), long), Err(CollocationError::DegreeMismatch));
    let empty: Result<Vec<i32>, &str> = Ok(vec![]);
    assert_eq!(accept_integration(&grid(1), empty), Err(CollocationError::DegreeMismatch));
}
