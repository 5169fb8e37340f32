use vstd::prelude::*;

verus! {

/// A cell of a grid maze. Cells are identified by `idx`, their one-dimensional
/// index in the maze; `weight` is a cost that path finders may use.
/// Two nodes are equal when their indices are equal, whatever their weights.
#[derive(Debug, Copy, Clone)]
pub struct GridNode {
    pub idx: usize,
    pub weight: isize,
}

impl GridNode {
    /// A node with the given index and weight.
    pub fn new(idx: usize, weight: isize) -> (r: GridNode)
        ensures
            r.idx == idx,
            r.weight == weight,
    {
        GridNode { idx, weight }
    }

    /// The index of this node.
    pub fn idx(&self) -> (r: usize)
        ensures
            r == self.idx,
    {
        self.idx
    }

    /// The weight of this node.
    pub fn weight(&self) -> (r: isize)
        ensures
            r == self.weight,
    {
        self.weight
    }

    pub fn set_idx(&mut self, new_idx: usize)
        ensures
            final(self).idx == new_idx,
            final(self).weight == old(self).weight,
    {
        self.idx = new_idx;
    }

    pub fn set_weight(&mut self, new_weight: isize)
        ensures
            final(self).idx == old(self).idx,
            final(self).weight == new_weight,
    {
        self.weight = new_weight;
    }
}

impl PartialEq for GridNode {
    fn eq(&self, other: &GridNode) -> (r: bool)
        ensures
            r == (self.idx == other.idx),
    {
        self.idx == other.idx
    }
}

impl vstd::std_specs::cmp::PartialEqSpecImpl for GridNode {
    open spec fn obeys_eq_spec() -> bool {
        true
    }

    open spec fn eq_spec(&self, other: &GridNode) -> bool {
        self.idx == other.idx
    }
}

impl Eq for GridNode {
}

impl core::hash::Hash for GridNode {
    /// Hashes the index only, so that equal nodes hash alike.
    fn hash<H: core::hash::Hasher>(&self, state: &mut H) {
        hash_index(self.idx, state);
    }
}

/// Relies on `usize`'s `Hash` impl to feed the index to the hasher.
#[verifier::external_body]
fn hash_index<H: core::hash::Hasher>(idx: usize, state: &mut H) {
    core::hash::Hash::hash(&idx, state)
}

} // verus!
