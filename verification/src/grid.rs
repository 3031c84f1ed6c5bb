//! Grid descriptors: the node distribution and the polynomial degree.

use vstd::prelude::*;
use crate::error::CollocationError;

verus! {

/// How the nodes of a grid are distributed over `[-1, 1]`.
#[derive(Clone, Copy, Debug, PartialEq, Eq, Structural)]
pub enum GridType {
    /// Equally spaced nodes, both endpoints included.
    Uniform,
    /// Chebyshev-Gauss nodes, all strictly inside the interval.
    ChebyshevGauss,
    /// Chebyshev-Gauss-Lobatto nodes, both endpoints included.
    ChebyshevGaussLobatto,
}

impl GridType {
    /// Whether the first and the last node are the ends of the interval.
    pub open spec fn has_endpoints(self) -> bool {
        !(self is ChebyshevGauss)
    }

    /// Whether the first and the last node are the ends of the interval, so
    /// that a condition at `-1` or `1` can be imposed at a node.
    pub fn includes_endpoints(self) -> (yes: bool)
        ensures
            yes == self.has_endpoints(),
    {
        match self {
            GridType::Uniform => true,
            GridType::ChebyshevGauss => false,
            GridType::ChebyshevGaussLobatto => true,
        }
    }
}

/// A degree is admissible when it is at least one and its `degree + 1`
/// nodes can still be counted in a `usize`.
pub open spec fn valid_degree(degree: int) -> bool {
    1 <= degree < usize::MAX
}

/// The description of a grid: its node distribution and its polynomial
/// degree `N`. A grid of degree `N` has `N + 1` nodes, indexed `0..=N`.
#[derive(Clone, Copy, Debug)]
pub struct GridSpec {
    degree: usize,
    grid_type: GridType,
}

impl GridSpec {
    #[verifier::type_invariant]
    spec fn well_formed(self) -> bool {
        valid_degree(self.degree as int)
    }

    /// The polynomial degree `N`.
    pub closed spec fn spec_degree(&self) -> nat {
        self.degree as nat
    }

    /// The node distribution.
    pub closed spec fn spec_grid_type(&self) -> GridType {
        self.grid_type
    }

    /// The number of nodes, `N + 1`.
    pub open spec fn spec_node_count(&self) -> nat {
        self.spec_degree() + 1
    }

    /// Describes the grid of the given degree and distribution.
    ///
    /// Fails with `InvalidDegree` exactly when the degree is not admissible.
    pub fn new(degree: usize, grid_type: GridType) -> (made: Result<GridSpec, CollocationError>)
        ensures
            valid_degree(degree as int) ==> made is Ok,
            !valid_degree(degree as int) ==> made == Err::<GridSpec, CollocationError>(
                CollocationError::InvalidDegree,
            ),
            made matches Ok(grid) ==> grid.spec_degree() == degree && grid.spec_grid_type()
                == grid_type,
    {
        if degree < 1 || degree == usize::MAX {
            Err(CollocationError::InvalidDegree)
        } else {
            Ok(GridSpec { degree, grid_type })
        }
    }

    /// The polynomial degree `N`.
    pub fn degree(&self) -> (n: usize)
        ensures
            n == self.spec_degree(),
            valid_degree(n as int),
    {
        proof {
            use_type_invariant(self);
        }
        self.degree
    }

    /// The node distribution.
    pub fn grid_type(&self) -> (kind: GridType)
        ensures
            kind == self.spec_grid_type(),
    {
        self.grid_type
    }

    /// The number of nodes, `N + 1`.
    pub fn node_count(&self) -> (count: usize)
        ensures
            count == self.spec_node_count(),
            count >= 2,
    {
        proof {
            use_type_invariant(self);
        }
        self.degree + 1
    }

    /// Checks that a field, given by the number of its entries, has one
    /// entry per node.
    ///
    /// Fails with `DegreeMismatch` exactly when `len` is not `N + 1`.
    pub fn check_field_len(&self, len: usize) -> (checked: Result<(), CollocationError>)
        ensures
            len == self.spec_node_count() ==> checked is Ok,
            len != self.spec_node_count() ==> checked == Err::<(), CollocationError>(
                CollocationError::DegreeMismatch,
            ),
    {
        if len == self.node_count() {
            Ok(())
        } else {
            Err(CollocationError::DegreeMismatch)
        }
    }
}

} // verus!
