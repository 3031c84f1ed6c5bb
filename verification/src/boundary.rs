//! The set of grid nodes that carry a Dirichlet condition.

use vstd::prelude::*;
use crate::error::CollocationError;
use crate::grid::GridSpec;

verus! {

/// The node indices that a list of indices names.
pub open spec fn index_set(indices: Seq<usize>) -> Set<int> {
    Set::new(|i: int| exists|k: int| 0 <= k < indices.len() && indices[k] == i)
}

/// A set of boundary nodes of a grid of degree `N`, each given by its index
/// in `0..=N`. Its view is the set of those indices.
#[derive(Debug)]
pub struct BoundarySet {
    /// One flag per node: whether the node belongs to the set.
    mask: Vec<bool>,
}

impl View for BoundarySet {
    type V = Set<int>;

    closed spec fn view(&self) -> Set<int> {
        Set::new(|i: int| 0 <= i < self.mask.len() && self.mask[i])
    }
}

impl BoundarySet {
    #[verifier::type_invariant]
    spec fn well_formed(self) -> bool {
        2 <= self.mask.len() <= usize::MAX
    }

    /// The degree `N` of the grid that the set belongs to.
    pub closed spec fn spec_degree(&self) -> nat {
        if self.mask.len() >= 1 {
            (self.mask.len() - 1) as nat
        } else {
            0
        }
    }

    /// The number of nodes of the grid that the set belongs to, `N + 1`.
    pub open spec fn spec_node_count(&self) -> nat {
        self.spec_degree() + 1
    }

    /// Every member of a boundary set is the index of a node.
    pub proof fn members_are_nodes(&self)
        ensures
            forall|i: int| self@.contains(i) ==> 0 <= i <= self.spec_degree(),
    {
    }

    /// Collects the listed node indices of the grid into a boundary set. An
    /// index may be listed more than once.
    ///
    /// Fails with `BoundaryIndexOutOfRange` exactly when some listed index
    /// exceeds the degree of the grid.
    pub fn new(grid: &GridSpec, indices: &Vec<usize>) -> (made: Result<
        BoundarySet,
        CollocationError,
    >)
        ensures
            (forall|k: int| 0 <= k < indices.len() ==> indices[k] <= grid.spec_degree())
                ==> made is Ok,
            (exists|k: int| 0 <= k < indices.len() && indices[k] > grid.spec_degree()) ==> made
                == Err::<BoundarySet, CollocationError>(
                CollocationError::BoundaryIndexOutOfRange,
            ),
            made matches Ok(set) ==> set.spec_degree() == grid.spec_degree() && set@
                == index_set(indices@),
    {
        let count = grid.node_count();
        let mut mask: Vec<bool> = Vec::new();
        let mut i: usize = 0;
        while i < count
            invariant
                i <= count,
                mask.len() == i,
                forall|j: int| 0 <= j < i ==> !mask[j],
            decreases count - i,
        {
            mask.push(false);
            i += 1;
        }
        let mut k: usize = 0;
        while k < indices.len()
            invariant
                k <= indices.len(),
                mask.len() == count,
                count == grid.spec_degree() + 1,
                forall|j: int| 0 <= j < k ==> indices[j] < count,
                forall|i: int|
                    0 <= i < count ==> (mask[i] <==> exists|j: int|
                        0 <= j < k && indices[j] == i),
            decreases indices.len() - k,
        {
            let index = indices[k];
            if index >= count {
                return Err(CollocationError::BoundaryIndexOutOfRange);
            }
            let ghost before = mask@;
            mask.set(index, true);
            proof {
                assert forall|i: int| 0 <= i < count implies (mask[i] <==> exists|j: int|
                    0 <= j < k + 1 && indices[j] == i) by {
                    if i == index {
                        assert(indices[k as int] == i);
                    } else {
                        assert(mask[i] == before[i]);
                        if mask[i] {
                            let j = choose|j: int| 0 <= j < k && indices[j] == i;
                            assert(0 <= j < k + 1 && indices[j] == i);
                        }
                    }
                }
            }
            k += 1;
        }
        let set = BoundarySet { mask };
        proof {
            assert forall|i: int| set@.contains(i) <==> index_set(indices@).contains(i) by {
                if index_set(indices@).contains(i) {
                    let j = choose|j: int| 0 <= j < indices.len() && indices[j] == i;
                    assert(indices[j] < count);
                }
            }
            assert(set@ =~= index_set(indices@));
        }
        Ok(set)
    }

    /// The boundary set of the two ends of the grid: the nodes `0` and `N`.
    pub fn endpoints(grid: &GridSpec) -> (set: BoundarySet)
        ensures
            set.spec_degree() == grid.spec_degree(),
            set@ == set![0int, grid.spec_degree() as int],
    {
        let count = grid.node_count();
        let mut mask: Vec<bool> = Vec::new();
        let mut i: usize = 0;
        while i < count
            invariant
                i <= count,
                mask.len() == i,
                forall|j: int| 0 <= j < i ==> (mask[j] <==> j == 0 || j == count - 1),
            decreases count - i,
        {
            mask.push(i == 0 || i == count - 1);
            i += 1;
        }
        let set = BoundarySet { mask };
        proof {
            assert(set@ =~= set![0int, grid.spec_degree() as int]);
        }
        set
    }

    /// The degree `N` of the grid that the set belongs to.
    pub fn degree(&self) -> (n: usize)
        ensures
            n == self.spec_degree(),
            n >= 1,
    {
        proof {
            use_type_invariant(self);
        }
        self.mask.len() - 1
    }

    /// The number of nodes of the grid that the set belongs to, `N + 1`.
    pub fn node_count(&self) -> (count: usize)
        ensures
            count == self.spec_node_count(),
            count >= 2,
    {
        proof {
            use_type_invariant(self);
        }
        self.mask.len()
    }

    /// Whether the node `index` belongs to the set. An index that names no
    /// node belongs to no set.
    pub fn is_boundary(&self, index: usize) -> (member: bool)
        ensures
            member == self@.contains(index as int),
    {
        index < self.mask.len() && self.mask[index]
    }

    /// The members of the set in increasing order, each once.
    pub fn indices(&self) -> (list: Vec<usize>)
        ensures
            forall|a: int, b: int| 0 <= a < b < list.len() ==> list[a] < list[b],
            forall|i: int| self@.contains(i) <==> exists|k: int| 0 <= k < list.len() && list[k] == i,
    {
        let mut list: Vec<usize> = Vec::new();
        let mut i: usize = 0;
        while i < self.mask.len()
            invariant
                i <= self.mask.len(),
                forall|a: int, b: int| 0 <= a < b < list.len() ==> list[a] < list[b],
                forall|k: int| 0 <= k < list.len() ==> list[k] < i && self.mask[list[k] as int],
                forall|j: int| 0 <= j < i && self.mask[j] ==> exists|k: int| 0 <= k < list.len() && list[k] == j,
            decreases self.mask.len() - i,
        {
            if self.mask[i] {
                let ghost before = list@;
                list.push(i);
                proof {
                    assert forall|j: int| 0 <= j < i + 1 && self.mask[j] implies exists|k: int|
                        0 <= k < list.len() && list[k] == j by {
                        if j == i {
                            assert(list[list.len() - 1] == j);
                        } else {
                            let k = choose|k: int| 0 <= k < before.len() && before[k] == j;
                            assert(list[k] == j);
                        }
                    }
                }
            }
            i += 1;
        }
        list
    }
}

} // verus!
