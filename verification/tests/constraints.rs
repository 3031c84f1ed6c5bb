use spectral_collocation::boundary::BoundarySet;
use spectral_collocation::constraints::{
    boundary_entries_pass, check_square, constrain_entries, constrain_rows, pin_entries, unit_row,
};
use spectral_collocation::error::CollocationError;
use spectral_collocation::grid::{GridSpec, GridType};

fn ends(degree: usize) -> BoundarySet {
    BoundarySet::endpoints(&GridSpec::new(degree, GridType::ChebyshevGaussLobatto).unwrap())
}

fn counting_matrix(n: usize) -> Vec<Vec<i64>> {
    (0..n).map(|i| (0..n).map(|j| (10 * i + j) as i64 + 1).collect()).collect()
}

#[test]
fn unit_row_has_one_on_the_diagonal() {
    assert_eq!(unit_row(4, 2, 0i64, 1i64), vec![0, 0, 1, 0]);
    assert_eq!(unit_row(3, 0, 0.0f64, 1.0f64), vec![1.0, 0.0, 0.0]);
    assert_eq!(unit_row(3, 7, 0i64, 1i64), vec![0, 0, 0]);
    assert_eq!(unit_row(0, 0, 0i64, 1i64), Vec::<i64>::new());
}

#[test]
fn square_check_counts_rows_and_columns() {
    assert_eq!(check_square(&counting_matrix(3), 3), Ok(()));
    assert_eq!(check_square(&counting_matrix(3), 4), Err(CollocationError::DegreeMismatch));
    let ragged = vec![vec![1, 2], vec![3]];
    assert_eq!(check_square(&ragged, 2), Err(CollocationError::DegreeMismatch));
    assert_eq!(check_square(&Vec::<Vec<i64>>::new(), 0), Ok(()));
}

#[test]
fn boundary_rows_become_identity_rows() {
    let mut matrix = counting_matrix(4);
    assert_eq!(constrain_rows(&mut matrix, &ends(3), 0, 1), Ok(()));
    assert_eq!(
        matrix,
        vec![vec![1, 0, 0, 0], vec![11, 12, 13, 14], vec![21, 22, 23, 24], vec![0, 0, 0, 1]]
    );
}

#[test]
fn interior_boundary_row_is_constrained_too() {
    let grid = GridSpec::new(2, GridType::Uniform).unwrap();
    let set = BoundarySet::new(&grid, &vec![1]).unwrap();
    let mut matrix = vec![vec![1.5, 2.5, 3.5], vec![4.5, 5.5, 6.5], vec![7.5, 8.5, 9.5]];
    assert_eq!(constrain_rows(&mut matrix, &set, 0.0, 1.0), Ok(()));
    assert_eq!(matrix, vec![vec![1.5, 2.5, 3.5], vec![0.0, 1.0, 0.0], vec![7.5, 8.5, 9.5]]);
}

#[test]
fn constraining_rows_twice_changes_nothing_more() {
    let mut once = counting_matrix(5);
    constrain_rows(&mut once, &ends(4), 0, 1).unwrap();
    let mut twice = once.clone();
    constrain_rows(&mut twice, &ends(4), 0, 1).unwrap();
    assert_eq!(once, twice);
}

#[test]
fn matrix_of_another_size_is_left_alone() {
    let mut matrix = counting_matrix(3);
    assert_eq!(constrain_rows(&mut matrix, &ends(3), 0, 1), Err(CollocationError::DegreeMismatch));
    assert_eq!(matrix, counting_matrix(3));
    let mut ragged = vec![vec![1, 2, 3], vec![4, 5], vec![7, 8, 9]];
    assert_eq!(constrain_rows(&mut ragged, &ends(2), 0, 1), Err(CollocationError::DegreeMismatch));
    assert_eq!(ragged, vec![vec![1, 2, 3], vec![4, 5], vec![7, 8, 9]]);
}

#[test]
fn boundary_entries_take_prescribed_values() {
    let mut rhs = vec![1.0, 2.0, 3.0, 4.0, 5.0];
    let values = vec![-1.0, 9.0, 9.0, 9.0, 7.5];
    assert_eq!(constrain_entries(&mut rhs, &ends(4), &values), Ok(()));
    assert_eq!(rhs, vec![-1.0, 2.0, 3.0, 4.0, 7.5]);
    assert_eq!(constrain_entries(&mut rhs, &ends(4), &values), Ok(()));
    assert_eq!(rhs, vec![-1.0, 2.0, 3.0, 4.0, 7.5]);
}

#[test]
fn entries_of_another_length_are_left_alone() {
    let mut rhs = vec![1, 2, 3];
    assert_eq!(
        constrain_entries(&mut rhs, &ends(3), &vec![0, 0, 0, 0]),
        Err(CollocationError::DegreeMismatch)
    );
    assert_eq!(rhs, vec![1, 2, 3]);
    let mut full = vec![1, 2, 3, 4];
    assert_eq!(
        constrain_entries(&mut full, &ends(3), &vec![0, 0, 0]),
        Err(CollocationError::DegreeMismatch)
    );
    assert_eq!(full, vec![1, 2, 3, 4]);
}

#[test]
fn pinned_entries_are_zero_and_the_rest_is_kept() {
    let mut derivative = vec![0.25, -1.5, 2.0, 3.5, -0.75];
    assert_eq!(pin_entries(&mut derivative, &ends(4), 0.0), Ok(()));
    assert_eq!(derivative, vec![0.0, -1.5, 2.0, 3.5, 0.0]);
    assert_eq!(pin_entries(&mut derivative, &ends(4), 0.0), Ok(()));
    assert_eq!(derivative, vec![0.0, -1.5, 2.0, 3.5, 0.0]);
}

#[test]
fn pinning_a_vector_of_another_length_fails() {
    let mut derivative = vec![1.0, 2.0, 3.0];
    assert_eq!(pin_entries(&mut derivative, &ends(4), 0.0), Err(CollocationError::DegreeMismatch));
    assert_eq!(derivative, vec![1.0, 2.0, 3.0]);
}

#[test]
fn boundary_test_reads_boundary_entries_only() {
    let is_zero = |x: f64| x.abs() <= 1e-12;
    assert_eq!(boundary_entries_pass(&vec![0.0, 3.0, -2.0, 0.0], &ends(3), is_zero), Ok(true));
    assert_eq!(boundary_entries_pass(&vec![0.0, 3.0, -2.0, 0.5], &ends(3), is_zero), Ok(false));
    assert_eq!(boundary_entries_pass(&vec![0.1, 0.0, 0.0, 0.0], &ends(3), is_zero), Ok(false));
    assert_eq!(
        boundary_entries_pass(&vec![0.0, 0.0, 0.0], &ends(3), is_zero),
        Err(CollocationError::DegreeMismatch)
    );
}

#[test]
fn empty_boundary_passes_every_field() {
    let grid = GridSpec::new(2, GridType::Uniform).unwrap();
    let none = BoundarySet::new(&grid, &vec![]).unwrap();
    assert_eq!(boundary_entries_pass(&vec![1, 2, 3], &none, |_x: i32| false), Ok(true));
}
