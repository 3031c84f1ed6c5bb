//! Dirichlet constraints by projection: the rows of an operator and the
//! entries of a vector that belong to boundary nodes are overwritten, all
//! others are kept. The same rule serves the steady linear system, where the
//! overwritten rows become identity rows, and the time derivative of a
//! semi-discrete problem, where the overwritten entries are pinned to zero.

use vstd::prelude::*;
use crate::boundary::BoundarySet;
use crate::error::CollocationError;

verus! {

/// The rows of a matrix stored row by row, each as a sequence.
pub open spec fn rows_of<T>(matrix: Seq<Vec<T>>) -> Seq<Seq<T>> {
    Seq::new(matrix.len(), |i: int| matrix[i]@)
}

/// Whether the rows form an `n` by `n` matrix.
pub open spec fn is_square<T>(rows: Seq<Seq<T>>, n: nat) -> bool {
    &&& rows.len() == n
    &&& forall|i: int| 0 <= i < n ==> (#[trigger] rows[i]).len() == n
}

/// Row `i` of the `n` by `n` identity matrix.
pub open spec fn identity_row<T>(n: nat, i: int, zero: T, one: T) -> Seq<T> {
    Seq::new(
        n,
        |j: int|
            if j == i {
                one
            } else {
                zero
            },
    )
}

/// The matrix whose boundary rows are identity rows and whose other rows are
/// those of `rows`.
pub open spec fn constrained_rows<T>(rows: Seq<Seq<T>>, boundary: Set<int>, zero: T, one: T) -> Seq<
    Seq<T>,
> {
    Seq::new(
        rows.len(),
        |i: int|
            if boundary.contains(i) {
                identity_row(rows.len(), i, zero, one)
            } else {
                rows[i]
            },
    )
}

/// The vector whose boundary entries are those of `values` and whose other
/// entries are those of `entries`.
pub open spec fn constrained_entries<T>(entries: Seq<T>, boundary: Set<int>, values: Seq<T>) -> Seq<
    T,
> {
    Seq::new(
        entries.len(),
        |i: int|
            if boundary.contains(i) {
                values[i]
            } else {
                entries[i]
            },
    )
}

/// The vector whose boundary entries all are `value` and whose other entries
/// are those of `entries`.
pub open spec fn pinned_entries<T>(entries: Seq<T>, boundary: Set<int>, value: T) -> Seq<T> {
    constrained_entries(entries, boundary, Seq::new(entries.len(), |i: int| value))
}

/// Whether every boundary entry of `entries` is the prescribed one.
pub open spec fn meets_values<T>(entries: Seq<T>, boundary: Set<int>, values: Seq<T>) -> bool {
    forall|i: int| 0 <= i < entries.len() && boundary.contains(i) ==> entries[i] == values[i]
}

/// Constraining rows twice is constraining them once.
pub proof fn constrained_rows_idempotent<T>(rows: Seq<Seq<T>>, boundary: Set<int>, zero: T, one: T)
    ensures
        constrained_rows(constrained_rows(rows, boundary, zero, one), boundary, zero, one)
            == constrained_rows(rows, boundary, zero, one),
{
    assert(constrained_rows(constrained_rows(rows, boundary, zero, one), boundary, zero, one)
        =~= constrained_rows(rows, boundary, zero, one));
}

/// Constraining entries twice is constraining them once.
pub proof fn constrained_entries_idempotent<T>(
    entries: Seq<T>,
    boundary: Set<int>,
    values: Seq<T>,
)
    ensures
        constrained_entries(constrained_entries(entries, boundary, values), boundary, values)
            == constrained_entries(entries, boundary, values),
{
    assert(constrained_entries(constrained_entries(entries, boundary, values), boundary, values)
        =~= constrained_entries(entries, boundary, values));
}

/// Constrained entries meet the prescribed values, and entries that already
/// meet them are left as they are. So pinning the boundary entries of a time
/// derivative to zero keeps a field on its boundary values only if the
/// initial field has them.
pub proof fn constrained_entries_fixed_point<T>(
    entries: Seq<T>,
    boundary: Set<int>,
    values: Seq<T>,
)
    ensures
        meets_values(constrained_entries(entries, boundary, values), boundary, values),
        meets_values(entries, boundary, values) <==> constrained_entries(
            entries,
            boundary,
            values,
        ) == entries,
{
    let after = constrained_entries(entries, boundary, values);
    if meets_values(entries, boundary, values) {
        assert(after =~= entries);
    }
    if after == entries {
        assert forall|i: int| 0 <= i < entries.len() && boundary.contains(i) implies entries[i]
            == values[i] by {
            assert(after[i] == values[i]);
        }
    }
}

/// Pinning keeps the length, sets every boundary entry to the value and
/// keeps every other entry: with the value zero and the entries a time
/// derivative, the field does not move at the boundary nodes and moves as
/// the operator says everywhere else.
pub proof fn pinned_entries_at<T>(entries: Seq<T>, boundary: Set<int>, value: T, i: int)
    requires
        0 <= i < entries.len(),
    ensures
        pinned_entries(entries, boundary, value).len() == entries.len(),
        pinned_entries(entries, boundary, value)[i] == if boundary.contains(i) {
            value
        } else {
            entries[i]
        },
{
}

/// Checks that the matrix has `n` rows of `n` entries each.
///
/// Fails with `DegreeMismatch` exactly when it has not.
pub fn check_square<T>(matrix: &Vec<Vec<T>>, n: usize) -> (checked: Result<(), CollocationError>)
    ensures
        is_square(rows_of(matrix@), n as nat) ==> checked is Ok,
        !is_square(rows_of(matrix@), n as nat) ==> checked == Err::<(), CollocationError>(
            CollocationError::DegreeMismatch,
        ),
{
    if matrix.len() != n {
        return Err(CollocationError::DegreeMismatch);
    }
    let mut i: usize = 0;
    while i < n
        invariant
            i <= n,
            matrix.len() == n,
            forall|r: int| 0 <= r < i ==> (#[trigger] rows_of(matrix@)[r]).len() == n,
        decreases n - i,
    {
        if matrix[i].len() != n {
            assert(rows_of(matrix@)[i as int].len() != n);
            return Err(CollocationError::DegreeMismatch);
        }
        i += 1;
    }
    Ok(())
}

/// Builds row `i` of the `n` by `n` identity matrix from the two scalars.
pub fn unit_row<T: Copy>(n: usize, i: usize, zero: T, one: T) -> (row: Vec<T>)
    ensures
        row@ == identity_row(n as nat, i as int, zero, one),
{
    let mut row: Vec<T> = Vec::new();
    let mut j: usize = 0;
    while j < n
        invariant
            j <= n,
            row.len() == j,
            forall|c: int| 0 <= c < j ==> row[c] == identity_row(n as nat, i as int, zero, one)[c],
        decreases n - j,
    {
        row.push(if j == i { one } else { zero });
        j += 1;
    }
    assert(row@ =~= identity_row(n as nat, i as int, zero, one));
    row
}

/// Overwrites each boundary row of the matrix with the identity row and
/// keeps every other row.
///
/// Fails with `DegreeMismatch`, leaving the matrix as it was, exactly when
/// the matrix is not `N + 1` by `N + 1` for the degree `N` of the boundary
/// set.
pub fn constrain_rows<T: Copy>(
    matrix: &mut Vec<Vec<T>>,
    boundary: &BoundarySet,
    zero: T,
    one: T,
) -> (done: Result<(), CollocationError>)
    ensures
        is_square(rows_of(old(matrix)@), boundary.spec_node_count()) ==> done is Ok && rows_of(
            final(matrix)@,
        ) == constrained_rows(rows_of(old(matrix)@), boundary@, zero, one),
        !is_square(rows_of(old(matrix)@), boundary.spec_node_count()) ==> done == Err::<
            (),
            CollocationError,
        >(CollocationError::DegreeMismatch) && *final(matrix) == *old(matrix),
{
    let n = boundary.node_count();
    match check_square(matrix, n) {
        Err(e) => {
            return Err(e);
        },
        Ok(()) => {},
    }
    let ghost before = rows_of(matrix@);
    let ghost target = constrained_rows(before, boundary@, zero, one);
    let mut i: usize = 0;
    while i < n
        invariant
            i <= n,
            matrix.len() == n,
            before.len() == n,
            target == constrained_rows(before, boundary@, zero, one),
            forall|r: int| 0 <= r < i ==> (#[trigger] matrix[r])@ == target[r],
            forall|r: int| i <= r < n ==> (#[trigger] matrix[r])@ == before[r],
        decreases n - i,
    {
        if boundary.is_boundary(i) {
            let row = unit_row(n, i, zero, one);
            matrix.set(i, row);
        }
        i += 1;
    }
    assert(rows_of(matrix@) =~= target);
    Ok(())
}

/// Overwrites each boundary entry of the vector with the entry of `values`
/// at the same node and keeps every other entry.
///
/// Fails with `DegreeMismatch`, leaving the vector as it was, exactly when
/// the vector or `values` has not `N + 1` entries for the degree `N` of the
/// boundary set.
pub fn constrain_entries<T: Copy>(
    entries: &mut Vec<T>,
    boundary: &BoundarySet,
    values: &Vec<T>,
) -> (done: Result<(), CollocationError>)
    ensures
        old(entries).len() == boundary.spec_node_count() && values.len()
            == boundary.spec_node_count() ==> done is Ok && final(entries)@ == constrained_entries(
            old(entries)@,
            boundary@,
            values@,
        ),
        old(entries).len() != boundary.spec_node_count() || values.len()
            != boundary.spec_node_count() ==> done == Err::<(), CollocationError>(
            CollocationError::DegreeMismatch,
        ) && *final(entries) == *old(entries),
{
    let n = boundary.node_count();
    if entries.len() != n || values.len() != n {
        return Err(CollocationError::DegreeMismatch);
    }
    let ghost before = entries@;
    let ghost target = constrained_entries(before, boundary@, values@);
    let mut i: usize = 0;
    while i < n
        invariant
            i <= n,
            entries.len() == n,
            values.len() == n,
            before.len() == n,
            target == constrained_entries(before, boundary@, values@),
            forall|r: int| 0 <= r < i ==> entries[r] == target[r],
            forall|r: int| i <= r < n ==> entries[r] == before[r],
        decreases n - i,
    {
        if boundary.is_boundary(i) {
            entries.set(i, values[i]);
        }
        i += 1;
    }
    assert(entries@ =~= target);
    Ok(())
}

/// Overwrites each boundary entry of the vector with `value` and keeps every
/// other entry. With `value` zero and the vector a time derivative, the
/// field itself stays constant at the boundary nodes.
///
/// Fails with `DegreeMismatch`, leaving the vector as it was, exactly when
/// the vector has not `N + 1` entries for the degree `N` of the boundary set.
pub fn pin_entries<T: Copy>(entries: &mut Vec<T>, boundary: &BoundarySet, value: T) -> (done:
    Result<(), CollocationError>)
    ensures
        old(entries).len() == boundary.spec_node_count() ==> done is Ok && final(entries)@
            == pinned_entries(old(entries)@, boundary@, value),
        old(entries).len() != boundary.spec_node_count() ==> done == Err::<(), CollocationError>(
            CollocationError::DegreeMismatch,
        ) && *final(entries) == *old(entries),
{
    let n = boundary.node_count();
    if entries.len() != n {
        return Err(CollocationError::DegreeMismatch);
    }
    let ghost before = entries@;
    let ghost target = pinned_entries(before, boundary@, value);
    let mut i: usize = 0;
    while i < n
        invariant
            i <= n,
            entries.len() == n,
            before.len() == n,
            target == pinned_entries(before, boundary@, value),
            forall|r: int| 0 <= r < i ==> entries[r] == target[r],
            forall|r: int| i <= r < n ==> entries[r] == before[r],
        decreases n - i,
    {
        if boundary.is_boundary(i) {
            entries.set(i, value);
        }
        i += 1;
    }
    assert(entries@ =~= target);
    Ok(())
}

/// Tests whether every boundary entry of the field passes `admits`, the
/// caller's test for an admissible boundary value (for a homogeneous
/// condition: being zero, or zero within a tolerance).
///
/// Fails with `DegreeMismatch` exactly when the field has not `N + 1`
/// entries for the degree `N` of the boundary set.
pub fn boundary_entries_pass<T: Copy, P: Fn(T) -> bool>(
    field: &Vec<T>,
    boundary: &BoundarySet,
    admits: P,
) -> (checked: Result<bool, CollocationError>)
    requires
        forall|x: T| call_requires(admits, (x,)),
    ensures
        field.len() == boundary.spec_node_count() ==> checked is Ok,
        field.len() != boundary.spec_node_count() ==> checked == Err::<bool, CollocationError>(
            CollocationError::DegreeMismatch,
        ),
        checked == Ok::<bool, CollocationError>(true) ==> forall|i: int|
            boundary@.contains(i) ==> call_ensures(admits, (#[trigger] field[i],), true),
        checked == Ok::<bool, CollocationError>(false) ==> exists|i: int|
            boundary@.contains(i) && call_ensures(admits, (#[trigger] field[i],), false),
{
    let n = boundary.node_count();
    if field.len() != n {
        return Err(CollocationError::DegreeMismatch);
    }
    proof {
        boundary.members_are_nodes();
    }
    let mut i: usize = 0;
    while i < n
        invariant
            i <= n,
            field.len() == n,
            n == boundary.spec_node_count(),
            forall|x: T| call_requires(admits, (x,)),
            forall|r: int|
                0 <= r < i && boundary@.contains(r) ==> call_ensures(
                    admits,
                    (#[trigger] field[r],),
                    true,
                ),
        decreases n - i,
    {
        if boundary.is_boundary(i) {
            let passed = admits(field[i]);
            if !passed {
                assert(boundary@.contains(i as int) && call_ensures(
                    admits,
                    (field[i as int],),
                    false,
                ));
                return Ok(false);
            }
        }
        i += 1;
    }
    Ok(true)
}

} // verus!
