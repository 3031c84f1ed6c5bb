//! Testing the node coordinates of a grid: as many as the degree asks for,
//! strictly increasing, within the interval, and with its two ends among the
//! nodes exactly where the node distribution includes them.
//!
//! The order of the coordinates is the caller's: `before(a, b)` tells whether
//! `a` lies strictly before `b`.

use vstd::prelude::*;
use crate::error::CollocationError;
use crate::grid::GridSpec;

verus! {

/// Whether node `k` tested as it should: not before `lower`, not after
/// `upper`, and before its successor where it has one.
pub open spec fn node_passes<T, L: Fn(T, T) -> bool>(
    before: L,
    nodes: Seq<T>,
    lower: T,
    upper: T,
    k: int,
) -> bool {
    &&& call_ensures(before, (nodes[k], lower), false)
    &&& call_ensures(before, (upper, nodes[k]), false)
    &&& k + 1 < nodes.len() ==> call_ensures(before, (nodes[k], nodes[k + 1]), true)
}

/// Whether one of the tests of node `k` answered otherwise.
pub open spec fn node_fails<T, L: Fn(T, T) -> bool>(
    before: L,
    nodes: Seq<T>,
    lower: T,
    upper: T,
    k: int,
) -> bool {
    ||| call_ensures(before, (nodes[k], lower), true)
    ||| call_ensures(before, (upper, nodes[k]), true)
    ||| k + 1 < nodes.len() && call_ensures(before, (nodes[k], nodes[k + 1]), false)
}

/// Whether the first and the last node tested as they should: with
/// `at_ends`, `lower` not before the first and the last not before `upper`;
/// without, `lower` before the first and the last before `upper`.
pub open spec fn ends_pass<T, L: Fn(T, T) -> bool>(
    before: L,
    nodes: Seq<T>,
    lower: T,
    upper: T,
    at_ends: bool,
) -> bool {
    &&& call_ensures(before, (lower, nodes[0]), !at_ends)
    &&& call_ensures(before, (nodes[nodes.len() - 1], upper), !at_ends)
}

/// Whether one of the two tests of the ends answered otherwise.
pub open spec fn ends_fail<T, L: Fn(T, T) -> bool>(
    before: L,
    nodes: Seq<T>,
    lower: T,
    upper: T,
    at_ends: bool,
) -> bool {
    ||| call_ensures(before, (lower, nodes[0]), at_ends)
    ||| call_ensures(before, (nodes[nodes.len() - 1], upper), at_ends)
}

/// Tests a list of node coordinates against the grid: every node within
/// `lower` and `upper`, each strictly before the next, and the two ends
/// among the nodes exactly when the node distribution of the grid includes
/// them.
///
/// Fails with `DegreeMismatch` exactly when the list has not `N + 1`
/// entries.
pub fn check_nodes<T: Copy, L: Fn(T, T) -> bool>(
    grid: &GridSpec,
    nodes: &Vec<T>,
    lower: T,
    upper: T,
    before: L,
) -> (checked: Result<bool, CollocationError>)
    requires
        forall|a: T, b: T| call_requires(before, (a, b)),
    ensures
        nodes.len() == grid.spec_node_count() ==> checked is Ok,
        nodes.len() != grid.spec_node_count() ==> checked == Err::<bool, CollocationError>(
            CollocationError::DegreeMismatch,
        ),
        checked == Ok::<bool, CollocationError>(true) ==> ends_pass(
            before,
            nodes@,
            lower,
            upper,
            grid.spec_grid_type().has_endpoints(),
        ) && forall|k: int|
            0 <= k < nodes.len() ==> #[trigger] node_passes(before, nodes@, lower, upper, k),
        checked == Ok::<bool, CollocationError>(false) ==> ends_fail(
            before,
            nodes@,
            lower,
            upper,
            grid.spec_grid_type().has_endpoints(),
        ) || exists|k: int|
            0 <= k < nodes.len() && #[trigger] node_fails(before, nodes@, lower, upper, k),
{
    let count = grid.node_count();
    if nodes.len() != count {
        return Err(CollocationError::DegreeMismatch);
    }
    let mut k: usize = 0;
    while k < count
        invariant
            k <= count,
            nodes.len() == count,
            count == grid.spec_node_count(),
            forall|a: T, b: T| call_requires(before, (a, b)),
            forall|j: int| 0 <= j < k ==> #[trigger] node_passes(before, nodes@, lower, upper, j),
        decreases count - k,
    {
        let below = before(nodes[k], lower);
        let above = before(upper, nodes[k]);
        let ordered = if k + 1 < count {
            before(nodes[k], nodes[k + 1])
        } else {
            true
        };
        if below || above || !ordered {
            assert(node_fails(before, nodes@, lower, upper, k as int));
            return Ok(false);
        }
        assert(node_passes(before, nodes@, lower, upper, k as int));
        k += 1;
    }
    let at_ends = grid.grid_type().includes_endpoints();
    let first_inside = before(lower, nodes[0]);
    let last_inside = before(nodes[count - 1], upper);
    if first_inside == at_ends || last_inside == at_ends {
        assert(ends_fail(before, nodes@, lower, upper, at_ends));
        return Ok(false);
    }
    Ok(true)
}

} // verus!
