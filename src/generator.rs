use vstd::prelude::*;
use crate::grid_maze::{GridDirection, GridMaze};
use crate::grid_node::GridNode;
use crate::random::random_below;

verus! {

/// The position of the first node of `s` with index `idx`, if any.
pub open spec fn first_at(s: Seq<GridNode>, idx: usize) -> Option<nat>
    decreases s.len(),
{
    if s.len() == 0 {
        None
    } else if s[0].idx == idx {
        Some(0)
    } else {
        match first_at(s.drop_first(), idx) {
            Some(k) => Some(k + 1),
            None => None,
        }
    }
}

/// The walk `path` extended by `next`: if `next` is already on it, the loop
/// back to it is erased.
pub open spec fn walk_extended(path: Seq<GridNode>, next: GridNode) -> Seq<GridNode> {
    match first_at(path, next.idx) {
        Some(k) => path.take((k + 1) as int),
        None => path.push(next),
    }
}

/// `s` with its first node of index `idx` removed, if there is one.
pub open spec fn without(s: Seq<GridNode>, idx: usize) -> Seq<GridNode> {
    match first_at(s, idx) {
        Some(k) => s.remove(k as int),
        None => s,
    }
}

/// Links each step of `path` both ways, for the first `k` steps.
pub open spec fn carved(links: Seq<Seq<usize>>, path: Seq<GridNode>, k: nat) -> Seq<Seq<usize>>
    decreases k,
{
    if k == 0 {
        links
    } else {
        let prev = carved(links, path, (k - 1) as nat);
        let a = path[k - 1].idx;
        let b = path[k as int].idx;
        let once = prev.update(a as int, prev[a as int].push(b));
        once.update(b as int, once[b as int].push(a))
    }
}

/// `unvisited` without the nodes that start the first `k` steps of `path`.
pub open spec fn visited_removed(unvisited: Seq<GridNode>, path: Seq<GridNode>, k: nat) -> Seq<GridNode>
    decreases k,
{
    if k == 0 {
        unvisited
    } else {
        without(visited_removed(unvisited, path, (k - 1) as nat), path[k - 1].idx)
    }
}

proof fn lemma_first_at(s: Seq<GridNode>, idx: usize, j: int)
    requires
        0 <= j <= s.len(),
        forall|i: int| 0 <= i < j ==> s[i].idx != idx,
    ensures
        j < s.len() && s[j].idx == idx ==> first_at(s, idx) == Some(j as nat),
        j == s.len() ==> first_at(s, idx) is None,
    decreases j,
{
    if s.len() > 0 && j > 0 {
        lemma_first_at(s.drop_first(), idx, j - 1);
    }
}

fn position_of(s: &Vec<GridNode>, idx: usize) -> (r: Option<usize>)
    ensures
        match first_at(s@, idx) {
            Some(k) => k < s@.len() && r == Some(k as usize),
            None => r is None,
        },
        r matches Some(j) ==> first_at(s@, idx) == Some(j as nat),
{
    let mut j: usize = 0;
    while j < s.len()
        invariant
            j <= s@.len(),
            forall|i: int| 0 <= i < j ==> s@[i].idx != idx,
        decreases s@.len() - j,
    {
        if s[j].idx == idx {
            proof {
                lemma_first_at(s@, idx, j as int);
            }
            return Some(j);
        }
        j += 1;
    }
    proof {
        lemma_first_at(s@, idx, j as int);
    }
    None
}

impl GridMaze {
    /// Extends a loop-erased random walk by `next`.
    pub fn extend_walk(path: &mut Vec<GridNode>, next: GridNode)
        ensures
            final(path)@ == walk_extended(old(path)@, next),
    {
        let n = path.len();
        match position_of(path, next.idx) {
            Some(k) => {
                path.truncate(k + 1);
                assert(path@ =~= old(path)@.take((k + 1) as int));
            },
            None => path.push(next),
        }
    }

    /// Carves the passages of a finished walk: links each step both ways,
    /// and takes the node that starts each step out of `unvisited`.
    pub fn carve_walk(&mut self, path: &Vec<GridNode>, unvisited: &mut Vec<GridNode>)
        requires
            old(self).wf(),
            forall|i: int| 0 <= i < path@.len() ==> (#[trigger] path@[i]).idx < old(self).nodes@.len(),
        ensures
            final(self).wf(),
            final(self).nodes == old(self).nodes,
            final(self).rows == old(self).rows,
            final(self).cols == old(self).cols,
            path@.len() == 0 ==> final(self).links == old(self).links && final(unvisited)@ == old(
                unvisited,
            )@,
            path@.len() > 0 ==> final(self).links_view() == carved(
                old(self).links_view(),
                path@,
                (path@.len() - 1) as nat,
            ),
            path@.len() > 0 ==> final(unvisited)@ == visited_removed(
                old(unvisited)@,
                path@,
                (path@.len() - 1) as nat,
            ),
    {
        if path.len() == 0 {
            return ;
        }
        let ghost links0 = self.links_view();
        let ghost unvisited0 = unvisited@;
        let mut k: usize = 1;
        while k < path.len()
            invariant
                1 <= k <= path@.len(),
                self.wf(),
                self.nodes == old(self).nodes,
                self.rows == old(self).rows,
                self.cols == old(self).cols,
                forall|i: int| 0 <= i < path@.len() ==> (#[trigger] path@[i]).idx < self.nodes@.len(),
                self.links_view() == carved(links0, path@, (k - 1) as nat),
                unvisited@ == visited_removed(unvisited0, path@, (k - 1) as nat),
            decreases path@.len() - k,
        {
            let node1 = path[k - 1];
            let node2 = path[k];
            self.link(&node1, &node2, true);
            let ghost before = unvisited@;
            let found = position_of(unvisited, node1.idx);
            if let Some(i) = found {
                unvisited.remove(i);
                assert(first_at(before, node1.idx) == Some(i as nat));
                assert(unvisited@ == before.remove(i as int));
            } else {
                assert(first_at(before, node1.idx) is None);
            }
            assert(node1 == path@[k - 1]);
            assert(unvisited@ == without(before, path@[k - 1].idx));
            k += 1;
        }
    }

    proof fn lemma_neighbor_in_range(&self, i: nat, d: GridDirection)
        ensures
            match self.spec_neighbor(i, d) {
                Some(y) => y < self.nodes@.len(),
                None => true,
            },
    {
        match d {
            GridDirection::Up => {
                if i >= self.cols && i - self.cols < self.nodes@.len() {
                    assert(self.spec_up(i) == Some((i - self.cols) as nat));
                }
            },
            GridDirection::Right => {},
            GridDirection::Down => {},
            GridDirection::Left => {
                if self.cols > 0 {
                    assert(0nat % (self.cols as nat) == 0) by (nonlinear_arith)
                        requires
                            self.cols > 0,
                    ;
                }
            },
        }
    }

    /// The direction examined `k`-th: up, right, down, left.
    pub open spec fn direction_at(k: int) -> GridDirection {
        if k == 0 {
            GridDirection::Up
        } else if k == 1 {
            GridDirection::Right
        } else if k == 2 {
            GridDirection::Down
        } else {
            GridDirection::Left
        }
    }

    /// The neighbours of `i` in the first `k` directions that `i` has no
    /// passage to, in that order; with `dead_only`, only those that are dead
    /// ends.
    pub open spec fn unlinked_neighbors(&self, i: nat, k: nat, dead_only: bool) -> Seq<usize>
        decreases k,
    {
        if k == 0 {
            seq![]
        } else {
            let prev = self.unlinked_neighbors(i, (k - 1) as nat, dead_only);
            match self.spec_neighbor(i, Self::direction_at(k - 1)) {
                Some(y) => if !self.spec_has_link(i, y) && (!dead_only || self.links_view()[y as int].len()
                    == 1) {
                    prev.push(y as usize)
                } else {
                    prev
                },
                None => prev,
            }
        }
    }

    /// The neighbours a dead end `i` may be joined to: those it has no
    /// passage to that are dead ends themselves or, if there are none, all
    /// those it has no passage to.
    pub open spec fn braid_candidates(&self, i: nat) -> Seq<usize> {
        if self.unlinked_neighbors(i, 4, true).len() > 0 {
            self.unlinked_neighbors(i, 4, true)
        } else {
            self.unlinked_neighbors(i, 4, false)
        }
    }

    /// The passages after linking `a` and `x` both ways.
    pub open spec fn linked_both_ways(&self, a: usize, x: usize) -> Seq<Seq<usize>> {
        let once = self.links_view().update(a as int, self.links_view()[a as int].push(x));
        once.update(x as int, once[x as int].push(a))
    }

    /// Whether `node` is a dead end with somewhere to be joined to.
    pub open spec fn braidable(&self, i: nat) -> bool {
        self.links_view()[i as int].len() == 1 && self.braid_candidates(i).len() > 0
    }

    /// The candidates for joining dead end `node`, in direction order.
    pub fn braid_candidates_of(&self, node: &GridNode) -> (r: Vec<usize>)
        requires
            self.wf(),
            node.idx < self.nodes@.len(),
        ensures
            r@ == self.braid_candidates(node.idx as nat),
            forall|j: int| 0 <= j < r@.len() ==> (#[trigger] r@[j]) < self.nodes@.len(),
    {
        let ghost i = node.idx as nat;
        let dirs = GridDirection::all();
        let mut unlinked: Vec<usize> = Vec::new();
        let mut best: Vec<usize> = Vec::new();
        let mut k: usize = 0;
        while k < dirs.len()
            invariant
                self.wf(),
                node.idx < self.nodes@.len(),
                i == node.idx,
                dirs@ == seq![GridDirection::Up, GridDirection::Right, GridDirection::Down, GridDirection::Left],
                k <= 4,
                unlinked@ == self.unlinked_neighbors(i, k as nat, false),
                best@ == self.unlinked_neighbors(i, k as nat, true),
                forall|j: int| 0 <= j < unlinked@.len() ==> (#[trigger] unlinked@[j]) < self.nodes@.len(),
                forall|j: int| 0 <= j < best@.len() ==> (#[trigger] best@[j]) < self.nodes@.len(),
            decreases 4 - k,
        {
            let d = dirs[k];
            assert(d == Self::direction_at(k as int));
            let found = self.get_neighbor(node, d);
            proof {
                self.lemma_neighbor_in_range(i, d);
                if let Some(y) = self.spec_neighbor(i, d) {
                    assert(found == Some(self.nodes@[y as int]));
                    assert(self.nodes@[y as int].idx == y);
                    assert(self.links_view()[y as int] == self.links@[y as int]@);
                } else {
                    assert(found is None);
                }
            }
            if let Some(x) = found {
                if !self.has_node_link(node, &x) {
                    unlinked.push(x.idx);
                    if self.links[x.idx].len() == 1 {
                        best.push(x.idx);
                    }
                }
            }
            k += 1;
        }
        if best.len() > 0 {
            best
        } else {
            unlinked
        }
    }

    /// Turns dead end `node` into part of a loop: links it both ways to the
    /// candidate at position `pick`, counted round the candidates. A node
    /// that is not a dead end, or has no candidate, is left as it is.
    pub fn braid_node_with(&mut self, node: &GridNode, pick: usize)
        requires
            old(self).wf(),
            node.idx < old(self).nodes@.len(),
        ensures
            final(self).wf(),
            final(self).nodes == old(self).nodes,
            final(self).rows == old(self).rows,
            final(self).cols == old(self).cols,
            ({
                let c = old(self).braid_candidates(node.idx as nat);
                final(self).links_view() == if old(self).braidable(node.idx as nat) {
                    old(self).linked_both_ways(node.idx, c[pick as int % c.len() as int])
                } else {
                    old(self).links_view()
                }
            }),
    {
        assert(self.links_view()[node.idx as int] == self.links@[node.idx as int]@);
        if self.links[node.idx].len() != 1 {
            return ;
        }
        let candidates = self.braid_candidates_of(node);
        if candidates.len() == 0 {
            return ;
        }
        let x = candidates[pick % candidates.len()];
        let ghost before = *self;
        assert(self.nodes@[x as int].idx == x);
        self.link(node, &self.nodes[x].clone(), true);
        assert(self.links_view() == before.linked_both_ways(node.idx, x));
    }

    /// Turns dead end `node` into part of a loop, joined to a candidate
    /// drawn at random.
    pub fn braid_node(&mut self, node: &GridNode)
        requires
            old(self).wf(),
            node.idx < old(self).nodes@.len(),
        ensures
            final(self).wf(),
            final(self).nodes == old(self).nodes,
            final(self).rows == old(self).rows,
            final(self).cols == old(self).cols,
            !old(self).braidable(node.idx as nat) ==> final(self).links_view() == old(self).links_view(),
            old(self).braidable(node.idx as nat) ==> exists|k: int|
                0 <= k < old(self).braid_candidates(node.idx as nat).len() && #[trigger] final(self).links_view()
                    == old(self).linked_both_ways(node.idx, old(self).braid_candidates(node.idx as nat)[k]),
    {
        let count = self.braid_candidates_of(node).len();
        let pick = if count > 0 { random_below(count) } else { 0 };
        let ghost c = self.braid_candidates(node.idx as nat);
        self.braid_node_with(node, pick);
        proof {
            if self.braidable(node.idx as nat) {
            }
            if old(self).braidable(node.idx as nat) {
                let k = pick as int % c.len() as int;
                assert(0 <= k < c.len());
            }
        }
    }
}

} // verus!
