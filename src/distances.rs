use vstd::prelude::*;
use std::collections::HashMap;
use crate::grid_node::GridNode;

verus! {

broadcast use vstd::std_specs::hash::group_hash_axioms;

/// How far nodes of a maze are from a root node, keyed by node index.
#[derive(Debug)]
pub struct Distances {
    root: GridNode,
    nodes: HashMap<usize, i32>,
}

impl View for Distances {
    type V = Map<usize, i32>;

    closed spec fn view(&self) -> Map<usize, i32> {
        self.nodes@
    }
}

impl Distances {
    /// The root node the distances are measured from.
    pub closed spec fn spec_root(&self) -> GridNode {
        self.root
    }

    /// Distances holding only the root, at distance 0 from itself.
    pub fn new(root: GridNode) -> (r: Distances)
        ensures
            r.spec_root() == root,
            r@ == map![root.idx => 0i32],
    {
        let mut nodes: HashMap<usize, i32> = HashMap::new();
        nodes.insert(root.idx, 0);
        assert(nodes@ =~= map![root.idx => 0i32]);
        Distances { root, nodes }
    }

    /// The root node.
    pub fn root(&self) -> (r: GridNode)
        ensures
            r == self.spec_root(),
    {
        self.root
    }

    /// The distance recorded for `node`, if any.
    pub fn get(&self, node: &GridNode) -> (r: Option<&i32>)
        ensures
            r == if self@.contains_key(node.idx) {
                Some(&self@[node.idx])
            } else {
                None
            },
    {
        self.nodes.get(&node.idx)
    }

    /// Records `distance` for `node`, replacing what was recorded.
    pub fn insert(&mut self, node: GridNode, distance: i32)
        ensures
            final(self)@ == old(self)@.insert(node.idx, distance),
            final(self).spec_root() == old(self).spec_root(),
    {
        self.nodes.insert(node.idx, distance);
    }
}

} // verus!
