use spectral_collocation::assembler::{assemble_steady, combine_operators};
use spectral_collocation::boundary::BoundarySet;
use spectral_collocation::error::CollocationError;
use spectral_collocation::grid::{GridSpec, GridType};

fn first_matrix() -> Vec<Vec<i64>> {
    vec![vec![1, 2, 3], vec![4, 5, 6], vec![7, 8, 9]]
}

fn second_matrix() -> Vec<Vec<i64>> {
    vec![vec![10, 20, 30], vec![40, 50, 60], vec![70, 80, 90]]
}

fn expression(d1: i64, d2: i64, on_diagonal: bool) -> i64 {
    d2 - 4 * d1 + if on_diagonal { 4 } else { 0 }
}

fn ends(degree: usize) -> BoundarySet {
    BoundarySet::endpoints(&GridSpec::new(degree, GridType::ChebyshevGaussLobatto).unwrap())
}

#[test]
fn operator_is_combined_entry_by_entry() {
    let operator = combine_operators(3, &first_matrix(), &second_matrix(), expression).unwrap();
    assert_eq!(operator, vec![vec![10, 12, 18], vec![24, 34, 36], vec![42, 48, 58]]);
}

#[test]
fn operator_of_floats_keeps_the_identity_on_the_diagonal() {
    let d1 = vec![vec![0.5, -0.5], vec![0.25, 2.0]];
    let d2 = vec![vec![1.0, 3.0], vec![-1.0, 0.0]];
    let term = |a: f64, b: f64, diag: bool| b - 4.0 * a + if diag { 4.0 } else { 0.0 };
    let operator = combine_operators(2, &d1, &d2, term).unwrap();
    assert_eq!(operator, vec![vec![3.0, 5.0], vec![-2.0, -4.0]]);
}

#[test]
fn operands_of_another_size_are_rejected() {
    assert_eq!(
        combine_operators(4, &first_matrix(), &second_matrix(), expression).err(),
        Some(CollocationError::DegreeMismatch)
    );
    let short = vec![vec![1, 2, 3], vec![4, 5, 6]];
    assert_eq!(
        combine_operators(3, &short, &second_matrix(), expression).err(),
        Some(CollocationError::DegreeMismatch)
    );
    let ragged = vec![vec![1, 2, 3], vec![4, 5], vec![7, 8, 9]];
    assert_eq!(
        combine_operators(3, &first_matrix(), &ragged, expression).err(),
        Some(CollocationError::DegreeMismatch)
    );
}

#[test]
fn steady_system_has_identity_rows_and_prescribed_values() {
    let system = assemble_steady(
        &first_matrix(),
        &second_matrix(),
        expression,
        vec![100, 200, 300],
        ends(2),
        &vec![-7, 0, 7],
        0,
        1,
    )
    .unwrap();
    assert_eq!(system.matrix, vec![vec![1, 0, 0], vec![24, 34, 36], vec![0, 0, 1]]);
    assert_eq!(system.rhs, vec![-7, 200, 7]);
    assert_eq!(system.boundary.indices(), vec![0, 2]);
}

#[test]
fn steady_system_without_boundary_is_the_operator() {
    let grid = GridSpec::new(2, GridType::Uniform).unwrap();
    let none = BoundarySet::new(&grid, &vec![]).unwrap();
    let system = assemble_steady(
        &first_matrix(),
        &second_matrix(),
        expression,
        vec![1, 2, 3],
        none,
        &vec![0, 0, 0],
        0,
        1,
    )
    .unwrap();
    assert_eq!(
        Ok(system.matrix),
        combine_operators(3, &first_matrix(), &second_matrix(), expression)
    );
    assert_eq!(system.rhs, vec![1, 2, 3]);
}

#[test]
fn steady_operands_of_another_size_are_rejected() {
    let fails = |d1: &Vec<Vec<i64>>, d2: &Vec<Vec<i64>>, source: Vec<i64>, values: Vec<i64>| {
        assemble_steady(d1, d2, expression, source, ends(2), &values, 0, 1).err()
    };
    let small = vec![vec![1, 2], vec![3, 4]];
    let mismatch = Some(CollocationError::DegreeMismatch);
    assert_eq!(fails(&small, &second_matrix(), vec![1, 2, 3], vec![0, 0, 0]), mismatch);
    assert_eq!(fails(&first_matrix(), &small, vec![1, 2, 3], vec![0, 0, 0]), mismatch);
    assert_eq!(fails(&first_matrix(), &second_matrix(), vec![1, 2], vec![0, 0, 0]), mismatch);
    assert_eq!(fails(&first_matrix(), &second_matrix(), vec![1, 2, 3], vec![0, 0, 0, 0]), mismatch);
    assert_eq!(fails(&first_matrix(), &second_matrix(), vec![1, 2, 3], vec![0, 0, 0]), None);
}
