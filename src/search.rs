use vstd::prelude::*;
use crate::distances::Distances;
use crate::grid_maze::GridMaze;
use crate::grid_node::GridNode;

verus! {

broadcast use vstd::std_specs::hash::group_hash_axioms;

/// One more than the largest distance term, standing for "not reached".
pub open spec fn no_distance() -> int {
    0x1_0000_0000
}

/// A measure of how much a distance map can still shrink: node `k` counts
/// its distance above the least `i32`, or `no_distance()` when it has none.
pub open spec fn term(d: Map<usize, i32>, k: usize) -> int {
    if d.contains_key(k) {
        d[k] - i32::MIN
    } else {
        no_distance()
    }
}

pub open spec fn potential(d: Map<usize, i32>, n: nat) -> int
    decreases n,
{
    if n == 0 {
        0
    } else {
        potential(d, (n - 1) as nat) + term(d, (n - 1) as usize)
    }
}

proof fn lemma_potential_nonneg(d: Map<usize, i32>, n: nat)
    ensures
        potential(d, n) >= 0,
    decreases n,
{
    if n > 0 {
        lemma_potential_nonneg(d, (n - 1) as nat);
    }
}

proof fn lemma_potential_shrinks(d: Map<usize, i32>, k: usize, v: i32, n: nat)
    requires
        term(d.insert(k, v), k) < term(d, k),
    ensures
        k < n ==> potential(d.insert(k, v), n) < potential(d, n),
        k >= n ==> potential(d.insert(k, v), n) == potential(d, n),
    decreases n,
{
    if n > 0 {
        lemma_potential_shrinks(d, k, v, (n - 1) as nat);
    }
}

impl GridMaze {
    /// The weight that moving into node `v` costs.
    pub open spec fn step_cost(&self, v: usize) -> int {
        (self.nodes@[v as int].weight as i32) as int
    }

    /// `w` follows passages: every node of it but the last has a passage to
    /// the next one.
    pub open spec fn is_walk(&self, w: Seq<usize>) -> bool {
        &&& w.len() >= 1
        &&& forall|k: int|
            0 <= k < w.len() - 1 ==> (#[trigger] w[k]) < self.links@.len() && self.links@[w[k] as int]@.contains(
                w[k + 1],
            )
    }

    /// What following walk `w` costs: the step cost of every node entered.
    pub open spec fn walk_cost(&self, w: Seq<usize>) -> int
        decreases w.len(),
    {
        if w.len() <= 1 {
            0
        } else {
            self.walk_cost(w.drop_last()) + self.step_cost(w.last())
        }
    }

    /// Some walk from `root` to `u` costs exactly `cost`.
    pub open spec fn walk_to(&self, root: usize, u: usize, cost: int) -> bool {
        exists|w: Seq<usize>|
            #[trigger] self.is_walk(w) && w[0] == root && w.last() == u && self.walk_cost(w) == cost
    }

    /// Moving into any node costs nothing or more.
    pub open spec fn costs_nonneg(&self) -> bool {
        forall|i: int| 0 <= i < self.nodes@.len() ==> (#[trigger] self.nodes@[i]).weight as i32 >= 0
    }

    /// No passage out of `u` can shorten a recorded distance: every node that
    /// `u` leads to is recorded, at most one step cost beyond `u`'s distance
    /// whenever that sum is an `i32`.
    pub open spec fn relaxed(&self, d: Map<usize, i32>, u: usize) -> bool {
        u < self.links@.len() ==> forall|j: int|
            0 <= j < self.links@[u as int]@.len() ==> {
                let v = #[trigger] self.links@[u as int]@[j];
                i32::MIN <= d[u] + self.step_cost(v) <= i32::MAX ==> d.contains_key(v) && d[v]
                    <= d[u] + self.step_cost(v)
            }
    }

    proof fn lemma_relaxed_after_decrease(&self, before: Map<usize, i32>, v: usize, t: i32, u: usize)
        requires
            self.relaxed(before, u),
            u != v,
            before.contains_key(u),
            before.contains_key(v) ==> t < before[v],
        ensures
            self.relaxed(before.insert(v, t), u),
    {
        let after = before.insert(v, t);
        if u < self.links@.len() {
            assert forall|j: int| 0 <= j < self.links@[u as int]@.len() implies {
                let x = #[trigger] self.links@[u as int]@[j];
                i32::MIN <= after[u] + self.step_cost(x) <= i32::MAX ==> after.contains_key(x)
                    && after[x] <= after[u] + self.step_cost(x)
            } by {
                let x = self.links@[u as int]@[j];
                assert(after[u] == before[u]);
                if x == v {
                    assert(after[x] == t);
                }
            }
        }
    }

    /// When no recorded distance can be shortened, the root is at 0 and step
    /// costs are not negative, each recorded distance is at most the cost of
    /// any walk from the root whose cost is an `i32`.
    pub proof fn lemma_distance_is_least(&self, d: Map<usize, i32>, root: usize, w: Seq<usize>)
        requires
            self.wf(),
            self.costs_nonneg(),
            forall|u: usize| #[trigger] d.contains_key(u) ==> self.relaxed(d, u),
            forall|u: usize| #[trigger] d.contains_key(u) ==> d[u] >= 0,
            d.contains_key(root),
            d[root] == 0,
            self.is_walk(w),
            w[0] == root,
            self.walk_cost(w) <= i32::MAX,
        ensures
            d.contains_key(w.last()),
            d[w.last()] <= self.walk_cost(w),
        decreases w.len(),
    {
        if w.len() > 1 {
            let p = w.drop_last();
            assert forall|k: int| 0 <= k < p.len() - 1 implies (#[trigger] p[k]) < self.links@.len()
                && self.links@[p[k] as int]@.contains(p[k + 1]) by {
                assert(p[k] == w[k] && p[k + 1] == w[k + 1]);
            }
            let u = p.last();
            let v = w.last();
            assert(u == w[w.len() - 2]);
            assert(u < self.links@.len() && self.links@[u as int]@.contains(v));
            let j = choose|j: int| 0 <= j < self.links@[u as int]@.len() && self.links@[u as int]@[j] == v;
            assert(v < self.nodes@.len());
            assert(self.nodes@[v as int].weight as i32 >= 0);
            assert(self.step_cost(v) >= 0);
            assert(self.walk_cost(p) <= i32::MAX);
            self.lemma_distance_is_least(d, root, p);
            assert(self.relaxed(d, u));
            assert(self.links@[u as int]@[j] == v);
        }
    }

    fn pending_weight(&self, root: &GridNode, i: usize) -> (r: isize)
        requires
            self.wf(),
    {
        if i < self.nodes.len() {
            self.nodes[i].weight
        } else {
            root.weight
        }
    }

    /// The distance of every node reachable from `root`, where moving into a
    /// node costs its weight. Nodes waiting to be expanded are taken lightest
    /// first. A step whose total would leave `i32` is not taken.
    pub fn distances(&self, root: &GridNode) -> (r: Distances)
        requires
            self.wf(),
        ensures
            r.spec_root() == *root,
            r@.contains_key(root.idx),
            forall|u: usize| r@.contains_key(u) ==> u == root.idx || u < self.nodes@.len(),
            forall|u: usize| #[trigger] r@.contains_key(u) ==> self.relaxed(r@, u),
            forall|u: usize| #[trigger] r@.contains_key(u) ==> self.walk_to(root.idx, u, r@[u] as int),
            self.costs_nonneg() ==> (
            r@[root.idx] == 0 && forall|u: usize| #[trigger] r@.contains_key(u) ==> r@[u] >= 0),
            self.costs_nonneg() ==> forall|w: Seq<usize>|
                #[trigger] self.is_walk(w) && w[0] == root.idx && self.walk_cost(w) <= i32::MAX
                    ==> r@.contains_key(w.last()) && r@[w.last()] <= self.walk_cost(w),
    {
        let ghost n = self.nodes@.len();
        let ghost nonneg = self.costs_nonneg();
        let mut weights = Distances::new(*root);
        let mut pending: Vec<usize> = vec![root.idx];
        proof {
            let w0 = seq![root.idx];
            assert(self.is_walk(w0));
            assert(self.walk_to(root.idx, root.idx, 0));
        }
        while pending.len() > 0
            invariant
                self.wf(),
                n == self.nodes@.len(),
                weights.spec_root() == *root,
                weights@.contains_key(root.idx),
                forall|u: usize| weights@.contains_key(u) ==> u == root.idx || u < n,
                forall|j: int| 0 <= j < pending@.len() ==> weights@.contains_key(#[trigger] pending@[j]),
                forall|u: usize| #[trigger] weights@.contains_key(u) ==> pending@.contains(u) || self.relaxed(weights@, u),
                nonneg ==> weights@[root.idx] <= 0,
                nonneg ==> forall|u: usize| #[trigger] weights@.contains_key(u) ==> weights@[u] >= 0,
                nonneg == self.costs_nonneg(),
                forall|u: usize| #[trigger] weights@.contains_key(u) ==> self.walk_to(root.idx, u, weights@[u] as int),
            decreases potential(weights@, n), pending@.len(),
        {
            // take the lightest pending node
            let mut best: usize = 0;
            let mut k: usize = 1;
            while k < pending.len()
                invariant
                    self.wf(),
                    1 <= k <= pending@.len(),
                    best < pending@.len(),
                decreases pending@.len() - k,
            {
                if self.pending_weight(root, pending[k]) <= self.pending_weight(root, pending[best]) {
                    best = k;
                }
                k += 1;
            }
            let ghost pend0 = pending@;
            let ghost pot0 = potential(weights@, n);
            proof {
                lemma_potential_nonneg(weights@, n);
            }
            let cur = pending.remove(best);
            assert(pend0[best as int] == cur);
            assert(weights@.contains_key(cur));
            assert forall|u: usize| #[trigger] weights@.contains_key(u) && u != cur implies pending@.contains(u) || self.relaxed(weights@, u) by {
                if pend0.contains(u) {
                    let j = choose|j: int| 0 <= j < pend0.len() && pend0[j] == u;
                    if j < best {
                        assert(pending@[j] == u);
                    } else {
                        assert(j != best);
                        assert(pending@[j - 1] == u);
                    }
                }
            }
            if cur < self.links.len() {
                let ghost d0 = weights@[cur];
                let ghost w0 = weights@;
                let m = self.links[cur].len();
                let mut j: usize = 0;
                while j < m
                    invariant
                        self.wf(),
                        n == self.nodes@.len(),
                        cur < self.links@.len(),
                        m == self.links@[cur as int]@.len(),
                        j <= m,
                        weights.spec_root() == *root,
                        weights@.contains_key(root.idx),
                        weights@.contains_key(cur),
                        forall|u: usize| weights@.contains_key(u) ==> u == root.idx || u < n,
                        forall|i: int| 0 <= i < pending@.len() ==> weights@.contains_key(#[trigger] pending@[i]),
                        forall|u: usize| #[trigger] weights@.contains_key(u) && u != cur ==> pending@.contains(u) || self.relaxed(weights@, u),
                        weights@[cur] == d0 || pending@.contains(cur),
                        w0.contains_key(cur),
                        w0[cur] == d0,
                        weights@[cur] == d0 ==> forall|i: int| 0 <= i < j ==> {
                            let v = #[trigger] self.links@[cur as int]@[i];
                            i32::MIN <= d0 + self.step_cost(v) <= i32::MAX ==> weights@.contains_key(v) && weights@[v] <= d0 + self.step_cost(v)
                        },
                        forall|u: usize| #[trigger] w0.contains_key(u) ==> weights@.contains_key(u) && weights@[u] <= w0[u],
                        pot0 >= potential(weights@, n),
                        pot0 == potential(weights@, n) ==> pending@.len() < pend0.len(),
                        nonneg ==> weights@[root.idx] <= 0,
                        nonneg ==> forall|u: usize| #[trigger] weights@.contains_key(u) ==> weights@[u] >= 0,
                        nonneg == self.costs_nonneg(),
                        forall|u: usize| #[trigger] weights@.contains_key(u) ==> self.walk_to(root.idx, u, weights@[u] as int),
                    decreases m - j,
                {
                    let v = self.links[cur][j];
                    assert(v == self.links@[cur as int]@[j as int]);
                    let ghost prev = weights@;
                    assert(self.nodes@[cur as int].idx == cur);
                    assert(self.nodes@[v as int].idx == v);
                    let cur_dist = *weights.get(&self.nodes[cur]).unwrap();
                    let cost = #[verifier::truncate] (self.nodes[v].weight as i32);
                    match cur_dist.checked_add(cost) {
                        Some(total_weight) => {
                            let better = match weights.get(&self.nodes[v]) {
                                Some(d) => total_weight < *d,
                                None => true,
                            };
                            if better {
                                let ghost before = weights@;
                                let ghost pb = pending@;
                                assert(self.nodes@[v as int].idx == v);
                                pending.push(v);
                                weights.insert(self.nodes[v], total_weight);
                                proof {
                                    assert(weights@ == before.insert(v, total_weight));
                                    assert(pending@ == pb.push(v));
                                    lemma_potential_shrinks(before, v, total_weight, n);
                                    assert(self.walk_to(root.idx, cur, cur_dist as int));
                                    let wc = choose|w: Seq<usize>|
                                        #[trigger] self.is_walk(w) && w[0] == root.idx && w.last() == cur
                                            && self.walk_cost(w) == cur_dist as int;
                                    let wv = wc.push(v);
                                    assert(wv.drop_last() =~= wc);
                                    assert(self.links@[cur as int]@[j as int] == v);
                                    assert forall|k: int| 0 <= k < wv.len() - 1 implies (#[trigger] wv[k]) < self.links@.len()
                                        && self.links@[wv[k] as int]@.contains(wv[k + 1]) by {
                                        if k < wc.len() - 1 {
                                            assert(wv[k] == wc[k] && wv[k + 1] == wc[k + 1]);
                                        } else {
                                            assert(wv[k] == cur && wv[k + 1] == v);
                                        }
                                    }
                                    assert(self.is_walk(wv));
                                    assert(self.walk_cost(wv) == cur_dist + self.step_cost(v));
                                    assert(self.walk_to(root.idx, v, total_weight as int));
                                    assert forall|u: usize| #[trigger] weights@.contains_key(u) && u != cur implies pending@.contains(u) || self.relaxed(weights@, u) by {
                                        if u == v {
                                            assert(pending@[pending@.len() - 1] == v);
                                        } else if pb.contains(u) {
                                            let i = choose|i: int| 0 <= i < pb.len() && pb[i] == u;
                                            assert(pending@[i] == u);
                                        } else {
                                            assert(before.contains_key(u));
                                            self.lemma_relaxed_after_decrease(before, v, total_weight, u);
                                        }
                                    }
                                    if v == cur {
                                        assert(pending@[pending@.len() - 1] == cur);
                                    } else if pb.contains(cur) {
                                        let i = choose|i: int| 0 <= i < pb.len() && pb[i] == cur;
                                        assert(pending@[i] == cur);
                                    }
                                    assert forall|u: usize| #[trigger] w0.contains_key(u) implies weights@.contains_key(u) && weights@[u] <= w0[u] by {
                                        assert(before.contains_key(u));
                                    }
                                    assert forall|i: int| 0 <= i < pending@.len() implies weights@.contains_key(#[trigger] pending@[i]) by {
                                        if i < pb.len() {
                                            assert(pending@[i] == pb[i]);
                                        }
                                    }
                                }
                            }
                        },
                        None => {},
                    }
                    proof {
                        assert(weights@[cur] <= prev[cur]);
                        assert(prev[cur] <= w0[cur]);
                        if weights@[cur] == d0 {
                            assert(prev[cur] == d0);
                            assert forall|i: int| 0 <= i < j + 1 implies {
                                let x = #[trigger] self.links@[cur as int]@[i];
                                i32::MIN <= d0 + self.step_cost(x) <= i32::MAX ==> weights@.contains_key(x) && weights@[x] <= d0 + self.step_cost(x)
                            } by {
                                let x = self.links@[cur as int]@[i];
                                if i < j {
                                    assert(i32::MIN <= d0 + self.step_cost(x) <= i32::MAX ==> prev.contains_key(x) && prev[x] <= d0 + self.step_cost(x));
                                } else {
                                    assert(x == v);
                                    assert(cost == self.step_cost(v));
                                }
                            }
                        }
                    }
                    j += 1;
                }
                proof {
                    assert(pot0 >= potential(weights@, n));
                    if !pending@.contains(cur) {
                        assert(weights@[cur] == d0);
                        assert(self.relaxed(weights@, cur));
                    }
                }
            }
            proof {
                lemma_potential_nonneg(weights@, n);
            }
        }
        proof {
            if nonneg {
                assert(weights@[root.idx] >= 0);
                assert forall|w: Seq<usize>|
                    #[trigger] self.is_walk(w) && w[0] == root.idx && self.walk_cost(w) <= i32::MAX
                        implies weights@.contains_key(w.last()) && weights@[w.last()] <= self.walk_cost(w) by {
                    assert forall|u: usize| #[trigger] weights@.contains_key(u) implies self.relaxed(weights@, u) by {
                        assert(!pending@.contains(u));
                    }
                    self.lemma_distance_is_least(weights@, root.idx, w);
                }
            }
        }
        weights
    }
}

} // verus!
