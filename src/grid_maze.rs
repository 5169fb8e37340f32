use vstd::prelude::*;
use crate::grid_node::GridNode;
use crate::random::random_below;

verus! {

/// A rectangular maze of `rows * cols` nodes stored in row order. `links[i]`
/// lists, in the order they were made, the nodes that node `i` has a passage to.
#[derive(Debug)]
pub struct GridMaze {
    pub nodes: Vec<GridNode>,
    pub links: Vec<Vec<usize>>,
    pub rows: usize,
    pub cols: usize,
}

/// The four sides of a node.
#[derive(PartialEq, Eq, Structural, Clone, Copy, Debug)]
pub enum GridDirection {
    Up,
    Right,
    Down,
    Left,
}

impl GridDirection {
    /// Every direction, clockwise from `Up`.
    pub fn all() -> (r: Vec<GridDirection>)
        ensures
            r@ == seq![GridDirection::Up, GridDirection::Right, GridDirection::Down, GridDirection::Left],
    {
        vec![GridDirection::Up, GridDirection::Right, GridDirection::Down, GridDirection::Left]
    }

    pub open spec fn spec_offset(self) -> (int, int) {
        match self {
            GridDirection::Up => (0, -1),
            GridDirection::Right => (1, 0),
            GridDirection::Down => (0, 1),
            GridDirection::Left => (-1, 0),
        }
    }

    /// The (column, row) step that moves one node in this direction.
    pub fn get_offset(&self) -> (r: (i32, i32))
        ensures
            r.0 == self.spec_offset().0,
            r.1 == self.spec_offset().1,
    {
        match self {
            GridDirection::Up => (0, -1),
            GridDirection::Right => (1, 0),
            GridDirection::Down => (0, 1),
            GridDirection::Left => (-1, 0),
        }
    }
}

/// The nodes that the present entries of `s` name, in order.
pub open spec fn present(s: Seq<Option<GridNode>>) -> Seq<GridNode>
    decreases s.len(),
{
    if s.len() == 0 {
        seq![]
    } else {
        match s.last() {
            Some(n) => present(s.drop_last()).push(n),
            None => present(s.drop_last()),
        }
    }
}

impl GridMaze {
    pub open spec fn spec_len(&self) -> nat {
        self.nodes@.len()
    }

    pub open spec fn links_view(&self) -> Seq<Seq<usize>> {
        self.links@.map_values(|v: Vec<usize>| v@)
    }

    /// Node `i` sits at index `i`, there are `rows * cols` of them, and every
    /// passage leads to a node of the maze.
    pub open spec fn wf(&self) -> bool {
        &&& self.nodes@.len() == self.rows * self.cols
        &&& self.rows * self.cols <= usize::MAX
        &&& forall|i: int| 0 <= i < self.nodes@.len() ==> (#[trigger] self.nodes@[i]).idx == i
        &&& self.links@.len() == self.nodes@.len()
        &&& forall|i: int, j: int|
            0 <= i < self.links@.len() && 0 <= j < self.links@[i]@.len() ==> (#[trigger] self.links@[i]@[j])
                < self.nodes@.len()
    }

    /// The node at `i`, if there is one.
    pub open spec fn node_at(&self, i: Option<nat>) -> Option<GridNode> {
        match i {
            Some(j) => if j < self.nodes@.len() {
                Some(self.nodes@[j as int])
            } else {
                None
            },
            None => None,
        }
    }

    pub open spec fn spec_up(&self, i: nat) -> Option<nat> {
        if i >= self.cols && i - self.cols < self.nodes@.len() {
            Some((i - self.cols) as nat)
        } else {
            None
        }
    }

    pub open spec fn spec_down(&self, i: nat) -> Option<nat> {
        if i + self.cols < self.nodes@.len() {
            Some((i + self.cols) as nat)
        } else {
            None
        }
    }

    pub open spec fn spec_right(&self, i: nat) -> Option<nat> {
        if self.cols > 0 && i % (self.cols as nat) + 1 != self.cols && i + 1 < self.nodes@.len() {
            Some(i + 1)
        } else {
            None
        }
    }

    pub open spec fn spec_left(&self, i: nat) -> Option<nat> {
        if self.cols > 0 && i % (self.cols as nat) != 0 && i - 1 < self.nodes@.len() {
            Some((i - 1) as nat)
        } else {
            None
        }
    }

    pub open spec fn spec_neighbor(&self, i: nat, direction: GridDirection) -> Option<nat> {
        match direction {
            GridDirection::Up => self.spec_up(i),
            GridDirection::Right => self.spec_right(i),
            GridDirection::Down => self.spec_down(i),
            GridDirection::Left => self.spec_left(i),
        }
    }

    /// Whether node `a` has a passage to node `b`.
    pub open spec fn spec_has_link(&self, a: nat, b: nat) -> bool {
        a < self.links@.len() && self.links@[a as int]@.contains(b as usize)
    }

    /// A maze of `rows * cols` nodes of weight 1 and no passages.
    pub fn new(rows: usize, cols: usize) -> (r: GridMaze)
        requires
            rows * cols <= usize::MAX,
        ensures
            r.wf(),
            r.rows == rows,
            r.cols == cols,
            forall|i: int| 0 <= i < r.nodes@.len() ==> (#[trigger] r.nodes@[i]).weight == 1,
            forall|i: int| 0 <= i < r.links@.len() ==> (#[trigger] r.links@[i])@.len() == 0,
    {
        let n = rows * cols;
        let mut nodes: Vec<GridNode> = Vec::new();
        let mut links: Vec<Vec<usize>> = Vec::new();
        let mut i: usize = 0;
        while i < n
            invariant
                i <= n,
                nodes@.len() == i,
                links@.len() == i,
                forall|k: int| 0 <= k < i ==> (#[trigger] nodes@[k]).idx == k && nodes@[k].weight == 1,
                forall|k: int| 0 <= k < i ==> (#[trigger] links@[k])@.len() == 0,
            decreases n - i,
        {
            nodes.push(GridNode::new(i, 1));
            links.push(Vec::new());
            i += 1;
        }
        GridMaze { nodes, links, rows, cols }
    }

    /// The dimensions as `(rows, cols)`.
    pub fn dimensions(&self) -> (r: (usize, usize))
        ensures
            r == (self.rows, self.cols),
    {
        (self.rows, self.cols)
    }

    /// The number of nodes, `rows * cols`.
    pub fn len(&self) -> (r: usize)
        requires
            self.wf(),
        ensures
            r == self.rows * self.cols,
            r == self.nodes@.len(),
    {
        self.nodes.len()
    }

    /// The one-dimensional index of the node at `(row, col)` in a maze of
    /// `col_dim` columns.
    pub fn idx_1d(row: usize, col: usize, col_dim: usize) -> (r: usize)
        requires
            row * col_dim + col <= usize::MAX,
        ensures
            r == row * col_dim + col,
    {
        row * col_dim + col
    }

    /// The `(col, row)` position of node `idx`.
    pub fn idx_to_pos(&self, idx: usize) -> (r: (i32, i32))
        requires
            self.wf(),
            idx < self.nodes@.len(),
        ensures
            r == ((idx % self.cols) as i32, (idx / self.cols) as i32),
    {
        assert(self.cols > 0) by (nonlinear_arith)
            requires
                idx < self.rows * self.cols,
        ;
        ((idx % self.cols) as i32, (idx / self.cols) as i32)
    }

    /// Makes a passage from `node1` to `node2`, and back as well when
    /// `bi_link` is set.
    pub fn link(&mut self, node1: &GridNode, node2: &GridNode, bi_link: bool)
        requires
            old(self).wf(),
            node1.idx < old(self).nodes@.len(),
            node2.idx < old(self).nodes@.len(),
        ensures
            final(self).wf(),
            final(self).nodes == old(self).nodes,
            final(self).rows == old(self).rows,
            final(self).cols == old(self).cols,
            ({
                let once = old(self).links_view().update(
                    node1.idx as int,
                    old(self).links_view()[node1.idx as int].push(node2.idx),
                );
                final(self).links_view() == if bi_link {
                    once.update(node2.idx as int, once[node2.idx as int].push(node1.idx))
                } else {
                    once
                }
            }),
    {
        let ghost v0 = self.links_view();
        let a = node1.idx;
        let b = node2.idx;
        self.links[a].push(b);
        let ghost once = v0.update(a as int, v0[a as int].push(b));
        assert(self.links_view() =~= once);
        if bi_link {
            self.links[b].push(a);
            assert(self.links_view() =~= once.update(b as int, once[b as int].push(a)));
        }
        assert forall|i: int, j: int|
            0 <= i < self.links@.len() && 0 <= j < self.links@[i]@.len() implies (
            #[trigger] self.links@[i]@[j]) < self.nodes@.len() by {
            assert(self.links@[i]@ == self.links_view()[i]);
            if i != a && i != b {
                assert(self.links_view()[i] == v0[i]);
                assert(v0[i] == old(self).links@[i]@);
            }
            if i == a || i == b {
                if j < old(self).links@[i]@.len() {
                    assert(old(self).links@[i]@ == v0[i]);
                }
            }
        }
    }

    /// The node above `node`; a node of the first row has none.
    pub fn up(&self, node: &GridNode) -> (r: Option<GridNode>)
        ensures
            r == self.node_at(self.spec_up(node.idx as nat)),
    {
        let i = node.idx;
        if i >= self.cols && i - self.cols < self.nodes.len() {
            Some(self.nodes[i - self.cols])
        } else {
            None
        }
    }

    /// The node below `node`, if any.
    pub fn down(&self, node: &GridNode) -> (r: Option<GridNode>)
        ensures
            r == self.node_at(self.spec_down(node.idx as nat)),
    {
        let i = node.idx;
        if i < self.nodes.len() && self.cols < self.nodes.len() - i {
            Some(self.nodes[i + self.cols])
        } else {
            None
        }
    }

    /// The node right of `node`, unless `node` is on the right edge. A maze
    /// without columns has no nodes, hence no neighbours.
    pub fn right(&self, node: &GridNode) -> (r: Option<GridNode>)
        ensures
            r == self.node_at(self.spec_right(node.idx as nat)),
    {
        let i = node.idx;
        if self.cols > 0 && i % self.cols + 1 != self.cols && i < self.nodes.len() && 1 < self.nodes.len() - i {
            Some(self.nodes[i + 1])
        } else {
            None
        }
    }

    /// The node left of `node`, unless `node` is on the left edge.
    pub fn left(&self, node: &GridNode) -> (r: Option<GridNode>)
        ensures
            r == self.node_at(self.spec_left(node.idx as nat)),
    {
        let i = node.idx;
        if self.cols > 0 && i == 0 {
            assert(0nat % (self.cols as nat) == 0) by (nonlinear_arith)
                requires
                    self.cols > 0,
            ;
        }
        if self.cols > 0 && i % self.cols != 0 && i > 0 && i - 1 < self.nodes.len() {
            Some(self.nodes[i - 1])
        } else {
            None
        }
    }

    /// The neighbour of `node` in `direction`, or `None` at the maze's edge.
    pub fn get_neighbor(&self, node: &GridNode, direction: GridDirection) -> (r: Option<GridNode>)
        ensures
            r == self.node_at(self.spec_neighbor(node.idx as nat, direction)),
    {
        match direction {
            GridDirection::Up => self.up(node),
            GridDirection::Right => self.right(node),
            GridDirection::Down => self.down(node),
            GridDirection::Left => self.left(node),
        }
    }

    /// The nodes adjacent to `node`, linked or not, in the order up, right,
    /// down, left.
    pub fn neighbors(&self, node: &GridNode) -> (r: Vec<GridNode>)
        ensures
            r@ == present(
                seq![
                    self.node_at(self.spec_up(node.idx as nat)),
                    self.node_at(self.spec_right(node.idx as nat)),
                    self.node_at(self.spec_down(node.idx as nat)),
                    self.node_at(self.spec_left(node.idx as nat)),
                ],
            ),
    {
        let candidates = [self.up(node), self.right(node), self.down(node), self.left(node)];
        let ghost cs = seq![
            self.node_at(self.spec_up(node.idx as nat)),
            self.node_at(self.spec_right(node.idx as nat)),
            self.node_at(self.spec_down(node.idx as nat)),
            self.node_at(self.spec_left(node.idx as nat)),
        ];
        assert(candidates@ =~= cs);
        let mut r: Vec<GridNode> = Vec::new();
        let mut k: usize = 0;
        while k < 4
            invariant
                k <= 4,
                candidates@ == cs,
                r@ == present(cs.take(k as int)),
            decreases 4 - k,
        {
            assert(cs.take(k + 1).drop_last() =~= cs.take(k as int));
            if let Some(n) = candidates[k] {
                r.push(n);
            }
            k += 1;
        }
        assert(cs.take(4) =~= cs);
        r
    }

    /// Whether `node1` has a passage to `node2`; passages back are not
    /// considered.
    pub fn has_node_link(&self, node1: &GridNode, node2: &GridNode) -> (r: bool)
        ensures
            r == self.spec_has_link(node1.idx as nat, node2.idx as nat),
    {
        if node1.idx < self.links.len() {
            let ls = &self.links[node1.idx];
            let mut k: usize = 0;
            while k < ls.len()
                invariant
                    k <= ls@.len(),
                    node1.idx < self.links@.len(),
                    ls@ == self.links@[node1.idx as int]@,
                    forall|j: int| 0 <= j < k ==> ls@[j] != node2.idx,
                decreases ls@.len() - k,
            {
                if ls[k] == node2.idx {
                    assert(ls@[k as int] == node2.idx);
                    return true;
                }
                k += 1;
            }
            false
        } else {
            false
        }
    }

    /// Whether `node` has a neighbour in `direction` and a passage to it.
    pub fn has_link(&self, node: &GridNode, direction: GridDirection) -> (r: bool)
        ensures
            r == match self.node_at(self.spec_neighbor(node.idx as nat, direction)) {
                Some(n2) => self.spec_has_link(node.idx as nat, n2.idx as nat),
                None => false,
            },
    {
        if let Some(node2) = self.get_neighbor(node, direction) {
            return self.has_node_link(node, &node2);
        }
        false
    }

    /// The nodes that `node` has passages to, in the order the passages were
    /// made; none for a node outside the maze.
    pub fn get_links(&self, node: &GridNode) -> (r: Vec<GridNode>)
        requires
            self.wf(),
        ensures
            r@ == if node.idx < self.links@.len() {
                self.links@[node.idx as int]@.map_values(|j: usize| self.nodes@[j as int])
            } else {
                Seq::<GridNode>::empty()
            },
    {
        let mut r: Vec<GridNode> = Vec::new();
        if node.idx < self.links.len() {
            let ls = &self.links[node.idx];
            let ghost target = ls@.map_values(|j: usize| self.nodes@[j as int]);
            let mut k: usize = 0;
            while k < ls.len()
                invariant
                    self.wf(),
                    node.idx < self.links@.len(),
                    k <= ls@.len(),
                    ls@ == self.links@[node.idx as int]@,
                    target == ls@.map_values(|j: usize| self.nodes@[j as int]),
                    r@ == target.take(k as int),
                decreases ls@.len() - k,
            {
                let j = ls[k];
                assert(j < self.nodes@.len());
                r.push(self.nodes[j]);
                assert(r@ =~= target.take(k + 1));
                k += 1;
            }
            assert(target.take(ls@.len() as int) =~= target);
        }
        r
    }

    /// A node of the maze drawn at random.
    pub fn random_node(&self) -> (r: GridNode)
        requires
            self.nodes@.len() > 0,
        ensures
            self.nodes@.contains(r),
    {
        let i = random_below(self.nodes.len());
        assert(self.nodes@[i as int] == self.nodes@[i as int]);
        self.nodes[i]
    }

    /// The nodes in row order.
    pub fn iter_nodes(&self) -> (r: &[GridNode])
        ensures
            r@ == self.nodes@,
    {
        self.nodes.as_slice()
    }

    /// The nodes in row order, for changes in place; node `i` must keep index
    /// `i` for the maze to stay well formed.
    pub fn iter_mut_nodes(&mut self) -> (r: &mut Vec<GridNode>)
        ensures
            *r == old(self).nodes,
            final(self).nodes == *final(r),
            final(self).links == old(self).links,
            final(self).rows == old(self).rows,
            final(self).cols == old(self).cols,
    {
        &mut self.nodes
    }

    /// Row `r`, from left to right.
    pub open spec fn row(&self, r: int) -> Seq<GridNode> {
        self.nodes@.subrange(r * self.cols, r * self.cols + self.cols)
    }

    /// The nodes along the edge on `side`: the first or last row, or the
    /// last or first node of each row, from top to bottom.
    pub open spec fn spec_edge_nodes(&self, side: GridDirection) -> Seq<GridNode> {
        match side {
            GridDirection::Up => if self.rows > 0 {
                self.row(0)
            } else {
                seq![]
            },
            GridDirection::Down => self.row(self.rows - 1),
            GridDirection::Right => Seq::new(
                self.rows as nat,
                |r: int| self.nodes@[r * self.cols + self.cols - 1],
            ),
            GridDirection::Left => Seq::new(self.rows as nat, |r: int| self.nodes@[r * self.cols]),
        }
    }

    /// The nodes with exactly one passage out, among the first `n`.
    pub open spec fn dead_ends_upto(&self, n: nat) -> Seq<GridNode>
        decreases n,
    {
        if n == 0 {
            seq![]
        } else if self.links@[n - 1]@.len() == 1 {
            self.dead_ends_upto((n - 1) as nat).push(self.nodes@[n - 1])
        } else {
            self.dead_ends_upto((n - 1) as nat)
        }
    }

    /// The rows of the maze, top to bottom.
    pub fn iter_rows(&self) -> (r: Vec<Vec<GridNode>>)
        requires
            self.wf(),
            self.cols > 0,
        ensures
            r@.len() == self.rows,
            forall|i: int| 0 <= i < self.rows ==> (#[trigger] r@[i])@ == self.row(i),
    {
        let mut rows: Vec<Vec<GridNode>> = Vec::new();
        let mut i: usize = 0;
        let mut start: usize = 0;
        while i < self.rows
            invariant
                self.wf(),
                i <= self.rows,
                start == i * self.cols,
                rows@.len() == i,
                forall|k: int| 0 <= k < i ==> (#[trigger] rows@[k])@ == self.row(k),
            decreases self.rows - i,
        {
            assert(start + self.cols <= self.rows * self.cols) by (nonlinear_arith)
                requires
                    start == i * self.cols,
                    i < self.rows,
            ;
            let mut row: Vec<GridNode> = Vec::new();
            let mut c: usize = 0;
            while c < self.cols
                invariant
                    self.wf(),
                    c <= self.cols,
                    start + self.cols <= self.nodes@.len(),
                    row@ == self.nodes@.subrange(start as int, start + c),
                decreases self.cols - c,
            {
                row.push(self.nodes[start + c]);
                assert(row@ =~= self.nodes@.subrange(start as int, start + c + 1));
                c += 1;
            }
            rows.push(row);
            assert((i + 1) * self.cols == i * self.cols + self.cols) by (nonlinear_arith);
            start = start + self.cols;
            i += 1;
        }
        rows
    }

    /// The nodes along the edge on `side`.
    pub fn get_edge_nodes(&self, side: GridDirection) -> (r: Vec<GridNode>)
        requires
            self.wf(),
            self.cols > 0,
            side == GridDirection::Down ==> self.rows > 0,
        ensures
            r@ == self.spec_edge_nodes(side),
    {
        let mut r: Vec<GridNode> = Vec::new();
        match side {
            GridDirection::Up | GridDirection::Down => {
                if side == GridDirection::Down || self.rows > 0 {
                    let row_index = if side == GridDirection::Up { 0 } else { self.rows - 1 };
                    assert(row_index * self.cols + self.cols <= self.rows * self.cols) by (nonlinear_arith)
                        requires
                            row_index < self.rows,
                    ;
                    let start = row_index * self.cols;
                    let mut c: usize = 0;
                    while c < self.cols
                        invariant
                            self.wf(),
                            c <= self.cols,
                            start + self.cols <= self.nodes@.len(),
                            start == row_index * self.cols,
                            r@ == self.nodes@.subrange(start as int, start + c),
                        decreases self.cols - c,
                    {
                        r.push(self.nodes[start + c]);
                        assert(r@ =~= self.nodes@.subrange(start as int, start + c + 1));
                        c += 1;
                    }
                }
            },
            GridDirection::Right | GridDirection::Left => {
                let mut i: usize = 0;
                while i < self.rows
                    invariant
                        self.wf(),
                        self.cols > 0,
                        side == GridDirection::Right || side == GridDirection::Left,
                        i <= self.rows,
                        r@ == self.spec_edge_nodes(side).take(i as int),
                    decreases self.rows - i,
                {
                    assert(i * self.cols + self.cols <= self.rows * self.cols) by (nonlinear_arith)
                        requires
                            i < self.rows,
                    ;
                    let start = i * self.cols;
                    let k = if side == GridDirection::Right { start + self.cols - 1 } else { start };
                    r.push(self.nodes[k]);
                    assert(r@ =~= self.spec_edge_nodes(side).take(i + 1));
                    i += 1;
                }
                assert(self.spec_edge_nodes(side).take(self.rows as int) =~= self.spec_edge_nodes(side));
            },
        }
        proof {
            if side == GridDirection::Up && self.rows == 0 {
                assert(r@ =~= self.spec_edge_nodes(side));
            }
        }
        r
    }

    /// The nodes with exactly one passage out, in index order.
    pub fn dead_ends(&self) -> (r: Vec<GridNode>)
        requires
            self.wf(),
        ensures
            r@ == self.dead_ends_upto(self.nodes@.len()),
    {
        let mut r: Vec<GridNode> = Vec::new();
        let n = self.nodes.len();
        let mut i: usize = 0;
        while i < n
            invariant
                self.wf(),
                n == self.nodes@.len(),
                i <= n,
                r@ == self.dead_ends_upto(i as nat),
            decreases n - i,
        {
            if self.links[i].len() == 1 {
                r.push(self.nodes[i]);
            }
            i += 1;
        }
        r
    }
}

/// Compass names for the four neighbours of a node.
pub trait WorldDirections {
    fn north(&self, node: &GridNode) -> Option<GridNode>;

    fn south(&self, node: &GridNode) -> Option<GridNode>;

    fn east(&self, node: &GridNode) -> Option<GridNode>;

    fn west(&self, node: &GridNode) -> Option<GridNode>;
}

impl WorldDirections for GridMaze {
    fn north(&self, node: &GridNode) -> Option<GridNode> {
        self.up(node)
    }

    fn south(&self, node: &GridNode) -> Option<GridNode> {
        self.down(node)
    }

    fn east(&self, node: &GridNode) -> Option<GridNode> {
        self.right(node)
    }

    fn west(&self, node: &GridNode) -> Option<GridNode> {
        self.left(node)
    }
}

} // verus!
