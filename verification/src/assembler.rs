//! Assembly of collocation problems from differentiation operators.
//!
//! An operator expression such as `D2 - 4 D1 + 4 I` is given as a function
//! `term(d1, d2, on_diagonal)` of one entry of each differentiation matrix
//! and of whether the entry lies on the diagonal, where the identity
//! contributes. The assembler applies it entry by entry; the scalar
//! arithmetic stays with the caller.

use vstd::prelude::*;
use crate::boundary::BoundarySet;
use crate::constraints::{
    check_square,
    constrain_entries,
    constrained_entries,
    constrained_rows,
    identity_row,
    is_square,
    rows_of,
    unit_row,
};
use crate::error::CollocationError;

verus! {

/// Whether `row` is row `i` of the operator that `term` makes of the rows
/// `first` and `second` of the two differentiation matrices.
pub open spec fn is_combined_row<T, F: Fn(T, T, bool) -> T>(
    term: F,
    i: int,
    first: Seq<T>,
    second: Seq<T>,
    row: Seq<T>,
) -> bool {
    &&& row.len() == first.len()
    &&& forall|j: int|
        0 <= j < row.len() ==> call_ensures(term, (first[j], second[j], j == i), #[trigger] row[j])
}

/// Whether `rows` is the operator that `term` makes of the two
/// differentiation matrices, row by row.
pub open spec fn is_combination<T, F: Fn(T, T, bool) -> T>(
    term: F,
    d1: Seq<Seq<T>>,
    d2: Seq<Seq<T>>,
    rows: Seq<Seq<T>>,
) -> bool {
    &&& rows.len() == d1.len()
    &&& forall|i: int|
        0 <= i < rows.len() ==> is_combined_row(term, i, d1[i], d2[i], #[trigger] rows[i])
}

/// Whether `rows` is the matrix of the steady problem: an identity row at
/// each boundary node, and the row of the combined operator at every other.
pub open spec fn is_steady_matrix<T, F: Fn(T, T, bool) -> T>(
    term: F,
    d1: Seq<Seq<T>>,
    d2: Seq<Seq<T>>,
    boundary: Set<int>,
    zero: T,
    one: T,
    rows: Seq<Seq<T>>,
) -> bool {
    &&& rows.len() == d1.len()
    &&& forall|i: int|
        0 <= i < rows.len() ==> if boundary.contains(i) {
            #[trigger] rows[i] == identity_row(rows.len(), i, zero, one)
        } else {
            is_combined_row(term, i, d1[i], d2[i], rows[i])
        }
}

/// Whether the operands of a steady problem all have the size of a grid
/// with `n` nodes.
pub open spec fn steady_shapes_fit<T>(
    d1: Seq<Seq<T>>,
    d2: Seq<Seq<T>>,
    source: Seq<T>,
    values: Seq<T>,
    n: nat,
) -> bool {
    &&& is_square(d1, n)
    &&& is_square(d2, n)
    &&& source.len() == n
    &&& values.len() == n
}

/// Constraining the rows of the combined operator gives the matrix of the
/// steady problem: assembling in one pass and combining first, constraining
/// afterwards, agree.
pub proof fn constrained_combination_is_steady<T, F: Fn(T, T, bool) -> T>(
    term: F,
    d1: Seq<Seq<T>>,
    d2: Seq<Seq<T>>,
    boundary: Set<int>,
    zero: T,
    one: T,
    operator: Seq<Seq<T>>,
)
    requires
        is_combination(term, d1, d2, operator),
    ensures
        is_steady_matrix(
            term,
            d1,
            d2,
            boundary,
            zero,
            one,
            constrained_rows(operator, boundary, zero, one),
        ),
{
    let rows = constrained_rows(operator, boundary, zero, one);
    assert forall|i: int| 0 <= i < rows.len() implies if boundary.contains(i) {
        #[trigger] rows[i] == identity_row(rows.len(), i, zero, one)
    } else {
        is_combined_row(term, i, d1[i], d2[i], rows[i])
    } by {
        if !boundary.contains(i) {
            assert(rows[i] == operator[i]);
        }
    }
}

/// In the matrix of a steady problem, the row of a boundary node holds one
/// on the diagonal and zero elsewhere: its equation reads `u[i] = rhs[i]`.
pub proof fn steady_boundary_row_is_identity<T, F: Fn(T, T, bool) -> T>(
    term: F,
    d1: Seq<Seq<T>>,
    d2: Seq<Seq<T>>,
    boundary: Set<int>,
    zero: T,
    one: T,
    rows: Seq<Seq<T>>,
    i: int,
    j: int,
)
    requires
        is_steady_matrix(term, d1, d2, boundary, zero, one, rows),
        boundary.contains(i),
        0 <= i < rows.len(),
        0 <= j < rows.len(),
    ensures
        rows[i].len() == rows.len(),
        rows[i][j] == if j == i {
            one
        } else {
            zero
        },
{
    assert(rows[i] == identity_row(rows.len(), i, zero, one));
}

/// A linear system `matrix * u = rhs` over the nodes of a grid, with the
/// boundary nodes at which a Dirichlet condition replaces the equation.
#[derive(Debug)]
pub struct CollocationSystem<T> {
    /// The matrix, row by row.
    pub matrix: Vec<Vec<T>>,
    /// The right-hand side.
    pub rhs: Vec<T>,
    /// The nodes whose rows are identity rows.
    pub boundary: BoundarySet,
}

/// Combines one row of each differentiation matrix into row `i` of the
/// operator.
fn combine_row<T: Copy, F: Fn(T, T, bool) -> T>(i: usize, first: &Vec<T>, second: &Vec<T>, term: &F) -> (row:
    Vec<T>)
    requires
        first.len() == second.len(),
        forall|a: T, b: T, d: bool| call_requires(*term, (a, b, d)),
    ensures
        is_combined_row(*term, i as int, first@, second@, row@),
{
    let n = first.len();
    let mut row: Vec<T> = Vec::new();
    let mut j: usize = 0;
    while j < n
        invariant
            j <= n,
            n == first.len(),
            n == second.len(),
            row.len() == j,
            forall|a: T, b: T, d: bool| call_requires(*term, (a, b, d)),
            forall|c: int|
                0 <= c < j ==> call_ensures(
                    *term,
                    (first[c], second[c], c == i),
                    #[trigger] row[c],
                ),
        decreases n - j,
    {
        let entry = term(first[j], second[j], j == i);
        row.push(entry);
        j += 1;
    }
    row
}

/// Applies the operator expression `term` to the two differentiation
/// matrices of a grid with `node_count` nodes, entry by entry.
///
/// Fails with `DegreeMismatch` exactly when one of the matrices is not
/// `node_count` by `node_count`.
pub fn combine_operators<T: Copy, F: Fn(T, T, bool) -> T>(
    node_count: usize,
    d1: &Vec<Vec<T>>,
    d2: &Vec<Vec<T>>,
    term: F,
) -> (made: Result<Vec<Vec<T>>, CollocationError>)
    requires
        forall|a: T, b: T, d: bool| call_requires(term, (a, b, d)),
    ensures
        is_square(rows_of(d1@), node_count as nat) && is_square(rows_of(d2@), node_count as nat)
            ==> made is Ok,
        !(is_square(rows_of(d1@), node_count as nat) && is_square(
            rows_of(d2@),
            node_count as nat,
        )) ==> made == Err::<Vec<Vec<T>>, CollocationError>(CollocationError::DegreeMismatch),
        made matches Ok(operator) ==> is_combination(
            term,
            rows_of(d1@),
            rows_of(d2@),
            rows_of(operator@),
        ),
{
    if check_square(d1, node_count).is_err() || check_square(d2, node_count).is_err() {
        return Err(CollocationError::DegreeMismatch);
    }
    let mut operator: Vec<Vec<T>> = Vec::new();
    let mut i: usize = 0;
    while i < node_count
        invariant
            i <= node_count,
            operator.len() == i,
            is_square(rows_of(d1@), node_count as nat),
            is_square(rows_of(d2@), node_count as nat),
            forall|a: T, b: T, d: bool| call_requires(term, (a, b, d)),
            forall|r: int|
                0 <= r < i ==> is_combined_row(
                    term,
                    r,
                    rows_of(d1@)[r],
                    rows_of(d2@)[r],
                    #[trigger] rows_of(operator@)[r],
                ),
        decreases node_count - i,
    {
        assert(rows_of(d1@)[i as int].len() == node_count);
        assert(rows_of(d2@)[i as int].len() == node_count);
        let row = combine_row(i, &d1[i], &d2[i], &term);
        let ghost built = rows_of(operator@);
        operator.push(row);
        assert forall|r: int| 0 <= r < i + 1 implies is_combined_row(
            term,
            r,
            rows_of(d1@)[r],
            rows_of(d2@)[r],
            #[trigger] rows_of(operator@)[r],
        ) by {
            if r < i {
                assert(rows_of(operator@)[r] == built[r]);
            }
        }
        i += 1;
    }
    Ok(operator)
}

/// Assembles the steady boundary-value problem: the operator that `term`
/// makes of the two differentiation matrices, with the row of each boundary
/// node replaced by the identity row, and the source with the entry of each
/// boundary node replaced by the prescribed value of `values` at that node.
/// `term` is not evaluated on boundary rows.
///
/// Fails with `DegreeMismatch` exactly when a matrix is not `N + 1` by
/// `N + 1`, or `source` or `values` has not `N + 1` entries, for the degree
/// `N` of the boundary set.
pub fn assemble_steady<T: Copy, F: Fn(T, T, bool) -> T>(
    d1: &Vec<Vec<T>>,
    d2: &Vec<Vec<T>>,
    term: F,
    source: Vec<T>,
    boundary: BoundarySet,
    values: &Vec<T>,
    zero: T,
    one: T,
) -> (made: Result<CollocationSystem<T>, CollocationError>)
    requires
        forall|a: T, b: T, d: bool| call_requires(term, (a, b, d)),
    ensures
        steady_shapes_fit(rows_of(d1@), rows_of(d2@), source@, values@, boundary.spec_node_count())
            ==> made is Ok,
        !steady_shapes_fit(
            rows_of(d1@),
            rows_of(d2@),
            source@,
            values@,
            boundary.spec_node_count(),
        ) ==> made == Err::<CollocationSystem<T>, CollocationError>(
            CollocationError::DegreeMismatch,
        ),
        made matches Ok(system) ==> {
            &&& system.boundary == boundary
            &&& system.rhs@ == constrained_entries(source@, boundary@, values@)
            &&& is_steady_matrix(
                term,
                rows_of(d1@),
                rows_of(d2@),
                boundary@,
                zero,
                one,
                rows_of(system.matrix@),
            )
        },
{
    let n = boundary.node_count();
    if check_square(d1, n).is_err() || check_square(d2, n).is_err() {
        return Err(CollocationError::DegreeMismatch);
    }
    let mut rhs = source;
    match constrain_entries(&mut rhs, &boundary, values) {
        Err(e) => {
            return Err(e);
        },
        Ok(()) => {},
    }
    let mut matrix: Vec<Vec<T>> = Vec::new();
    let mut i: usize = 0;
    while i < n
        invariant
            i <= n,
            matrix.len() == i,
            n == boundary.spec_node_count(),
            is_square(rows_of(d1@), n as nat),
            is_square(rows_of(d2@), n as nat),
            forall|a: T, b: T, d: bool| call_requires(term, (a, b, d)),
            forall|r: int|
                0 <= r < i ==> if boundary@.contains(r) {
                    #[trigger] rows_of(matrix@)[r] == identity_row(n as nat, r, zero, one)
                } else {
                    is_combined_row(term, r, rows_of(d1@)[r], rows_of(d2@)[r], rows_of(matrix@)[r])
                },
        decreases n - i,
    {
        assert(rows_of(d1@)[i as int].len() == n);
        assert(rows_of(d2@)[i as int].len() == n);
        let row = if boundary.is_boundary(i) {
            unit_row(n, i, zero, one)
        } else {
            combine_row(i, &d1[i], &d2[i], &term)
        };
        let ghost built = rows_of(matrix@);
        matrix.push(row);
        assert forall|r: int| 0 <= r < i + 1 implies if boundary@.contains(r) {
            #[trigger] rows_of(matrix@)[r] == identity_row(n as nat, r, zero, one)
        } else {
            is_combined_row(term, r, rows_of(d1@)[r], rows_of(d2@)[r], rows_of(matrix@)[r])
        } by {
            if r < i {
                assert(rows_of(matrix@)[r] == built[r]);
            }
        }
        i += 1;
    }
    Ok(CollocationSystem { matrix, rhs, boundary })
}

} // verus!
