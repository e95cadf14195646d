//! A directed graph of `usize` nodes with weighted edges, and the simple
//! paths between two nodes up to a length. Weights are floating-point
//! numbers held as their bit patterns (`f64::to_bits`); what they add up to
//! is computed by the caller.

use vstd::prelude::*;
use std::collections::{HashMap, HashSet};

verus! {

broadcast use vstd::std_specs::hash::group_hash_axioms;

/// An edge and the bits of its weight.
#[derive(Debug, Clone, Copy, PartialEq, Eq, Structural)]
pub struct Edge {
    pub from: usize,
    pub to: usize,
    pub weight_bits: u64,
}

/// Out-edges by source node, and the nodes seen.
pub struct Graph {
    adjacency: HashMap<usize, Vec<(usize, u64)>>,
    nodes: HashSet<usize>,
}

/// Whether the nodes of `p` are distinct.
pub open spec fn distinct(p: Seq<usize>) -> bool {
    forall|i: int, j: int| 0 <= i < j < p.len() ==> p[i] != p[j]
}

impl Graph {
    /// The out-edges of each source node: target and weight bits, in the
    /// order added.
    pub closed spec fn adj(&self) -> Map<usize, Seq<(usize, u64)>> {
        self.adjacency@.map_values(|v: Vec<(usize, u64)>| v@)
    }

    /// The nodes that are an end of some edge.
    pub closed spec fn node_set(&self) -> Set<usize> {
        self.nodes@
    }

    /// The out-edges of `n`; none for a node without any.
    pub open spec fn out(&self, n: usize) -> Seq<(usize, u64)> {
        if self.adj().contains_key(n) { self.adj()[n] } else { Seq::empty() }
    }

    /// The targets of the out-edges of `n`, in order.
    pub open spec fn nbrs(&self, n: usize) -> Seq<usize> {
        self.out(n).map_values(|e: (usize, u64)| e.0)
    }

    /// A simple path from `start` to `end` with at most `max_depth` nodes,
    /// each step along an edge.
    pub open spec fn simple_path(&self, start: usize, end: usize, max_depth: usize, p: Seq<usize>) -> bool {
        &&& 1 <= p.len() <= max_depth
        &&& p[0] == start
        &&& p.last() == end
        &&& forall|i: int| #![trigger p[i]] 0 < i < p.len() ==> self.nbrs(p[i - 1]).contains(p[i])
        &&& distinct(p)
    }

    /// A start of a simple path that has not reached `end` before its last
    /// node.
    pub open spec fn partial_path(&self, end: usize, p: Seq<usize>) -> bool {
        &&& p.len() >= 1
        &&& forall|i: int| #![trigger p[i]] 0 < i < p.len() ==> self.nbrs(p[i - 1]).contains(p[i])
        &&& distinct(p)
    }

    /// No edges.
    pub fn new() -> (g: Self)
        ensures
            g.adj() == Map::<usize, Seq<(usize, u64)>>::empty(),
            g.node_set() == Set::<usize>::empty(),
    {
        let g = Graph { adjacency: HashMap::new(), nodes: HashSet::new() };
        assert(g.adj() =~= Map::<usize, Seq<(usize, u64)>>::empty());
        g
    }

    /// Adds an edge from `from` to `to` whose weight has the bits
    /// `weight_bits`, after the edges `from` has.
    pub fn add_edge(&mut self, from: usize, to: usize, weight_bits: u64)
        ensures
            final(self).node_set() == old(self).node_set().insert(from).insert(to),
            final(self).adj() == old(self).adj().insert(from, old(self).out(from).push((to, weight_bits))),
    {
        self.nodes.insert(from);
        self.nodes.insert(to);
        let mut list = match self.adjacency.remove(&from) {
            Some(l) => l,
            None => Vec::new(),
        };
        let ghost before = list@;
        assert(before == old(self).out(from));
        list.push((to, weight_bits));
        self.adjacency.insert(from, list);
        assert(self.adj() =~= old(self).adj().insert(from, old(self).out(from).push((to, weight_bits))));
    }

    /// Adds an edge each way.
    pub fn add_undirected_edge(&mut self, from: usize, to: usize, weight_bits: u64)
        ensures
            final(self).node_set() == old(self).node_set().insert(from).insert(to),
            final(self).adj() == ({
                let a = old(self).adj().insert(from, old(self).out(from).push((to, weight_bits)));
                let o = if a.contains_key(to) { a[to] } else { Seq::empty() };
                a.insert(to, o.push((from, weight_bits)))
            }),
    {
        self.add_edge(from, to, weight_bits);
        self.add_edge(to, from, weight_bits);
        assert(self.node_set() =~= old(self).node_set().insert(from).insert(to));
    }

    /// The out-edges of `node`.
    pub fn get_neighbors(&self, node: usize) -> (r: Vec<(usize, u64)>)
        ensures
            r@ == self.out(node),
    {
        match self.adjacency.get(&node) {
            Some(v) => {
                let mut c: Vec<(usize, u64)> = Vec::new();
                let mut i: usize = 0;
                while i < v.len()
                    invariant
                        i <= v@.len(),
                        c@ == v@.take(i as int),
                    decreases v@.len() - i,
                {
                    c.push(v[i]);
                    assert(v@.take(i + 1) =~= v@.take(i as int).push(v@[i as int]));
                    i = i + 1;
                }
                assert(v@.take(v@.len() as int) =~= v@);
                c
            },
            None => Vec::new(),
        }
    }

    /// The nodes.
    pub fn nodes(&self) -> (r: &HashSet<usize>)
        ensures
            r@ == self.node_set(),
    {
        &self.nodes
    }
}

impl Default for Graph {
    /// No edges.
    fn default() -> (g: Self)
        ensures
            g.adj() == Map::<usize, Seq<(usize, u64)>>::empty(),
            g.node_set() == Set::<usize>::empty(),
    {
        Graph::new()
    }
}

/// The paths as abstract values.
pub open spec fn paths_view(ps: Seq<Vec<usize>>) -> Seq<Seq<usize>> {
    ps.map_values(|p: Vec<usize>| p@)
}

fn contains_node(p: &Vec<usize>, x: usize) -> (b: bool)
    ensures
        b == p@.contains(x),
{
    let mut i: usize = 0;
    while i < p.len()
        invariant
            i <= p@.len(),
            forall|j: int| 0 <= j < i ==> p@[j] != x,
        decreases p@.len() - i,
    {
        if p[i] == x {
            return true;
        }
        i = i + 1;
    }
    false
}

fn copy_path(p: &Vec<usize>) -> (c: Vec<usize>)
    ensures
        c@ == p@,
{
    let c = p.clone();
    assert(c@ =~= p@);
    c
}

/// Collects, after what `out` holds, every simple path to `end` of at most
/// `max_depth` nodes that extends `path`, depth first.
fn dfs_paths(g: &Graph, end: usize, max_depth: usize, path: &mut Vec<usize>, out: &mut Vec<Vec<usize>>)
    requires
        g.partial_path(end, old(path)@),
        old(path)@.len() <= max_depth + 1,
    ensures
        final(path)@ == old(path)@,
        final(out)@.len() >= old(out)@.len(),
        final(out)@.take(old(out)@.len() as int) == old(out)@,
        forall|q: Seq<usize>| #[trigger] paths_view(final(out)@.skip(old(out)@.len() as int)).contains(q)
            <==> (g.simple_path(old(path)@[0], end, max_depth, q) && old(path)@.is_prefix_of(q)),
    decreases max_depth + 1 - old(path)@.len(),
{
    let ghost p = path@;
    let ghost start = p[0];
    let ghost o0 = out@;
    if path.len() > max_depth {
        proof {
            assert(out@.skip(o0.len() as int) =~= Seq::<Vec<usize>>::empty());
            assert(out@.take(o0.len() as int) =~= o0);
            assert forall|q: Seq<usize>| #[trigger] paths_view(out@.skip(o0.len() as int)).contains(q)
                <==> (g.simple_path(start, end, max_depth, q) && p.is_prefix_of(q)) by {
                if g.simple_path(start, end, max_depth, q) && p.is_prefix_of(q) {
                    assert(q.len() >= p.len());
                }
            }
        }
        return;
    }
    let current = path[path.len() - 1];
    if current == end {
        let w = copy_path(path);
        out.push(w);
        proof {
            assert(out@.take(o0.len() as int) =~= o0);
            assert(paths_view(out@.skip(o0.len() as int)) =~= seq![p]);
            assert forall|q: Seq<usize>| #[trigger] paths_view(out@.skip(o0.len() as int)).contains(q)
                <==> (g.simple_path(start, end, max_depth, q) && p.is_prefix_of(q)) by {
                if paths_view(out@.skip(o0.len() as int)).contains(q) {
                    assert(paths_view(out@.skip(o0.len() as int))[0] == p);
                    assert(q == p);
                    assert(p.is_prefix_of(q)) by {
                        assert(q.subrange(0, p.len() as int) =~= p);
                    }
                }
                if g.simple_path(start, end, max_depth, q) && p.is_prefix_of(q) {
                    if q.len() > p.len() {
                        assert(q[p.len() - 1] == p[p.len() - 1]);
                        assert(q[p.len() - 1] != q[q.len() - 1]);
                    }
                    assert(q =~= p);
                    assert(paths_view(out@.skip(o0.len() as int))[0] == q);
                }
            }
        }
        return;
    }
    let nb = g.get_neighbors(current);
    let ghost ns = g.nbrs(current);
    let mut j: usize = 0;
    while j < nb.len()
        invariant
            j <= nb@.len(),
            nb@ == g.out(current),
            ns == g.nbrs(current),
            p.len() >= 1,
            p.len() <= max_depth,
            current == p[p.len() - 1],
            current != end,
            start == p[0],
            g.partial_path(end, p),
            p == old(path)@,
            path@ == p,
            out@.len() >= o0.len(),
            out@.take(o0.len() as int) == o0,
            forall|q: Seq<usize>| #[trigger] paths_view(out@.skip(o0.len() as int)).contains(q)
                <==> (g.simple_path(start, end, max_depth, q) && p.is_prefix_of(q) && q.len() > p.len()
                    && ns.take(j as int).contains(q[p.len() as int])),
        decreases nb@.len() - j,
    {
        let n = nb[j].0;
        assert(ns[j as int] == n);
        let ghost o1 = out@;
        if !contains_node(path, n) {
            path.push(n);
            proof {
                let p2 = path@;
                assert(p2 == p.push(n));
                assert forall|i: int| #![trigger p2[i]] 0 < i < p2.len() implies g.nbrs(p2[i - 1]).contains(p2[i]) by {
                    if i == p.len() {
                        assert(ns.contains(n));
                    } else {
                        assert(p2[i] == p[i] && p2[i - 1] == p[i - 1]);
                    }
                }
                assert forall|a: int, b: int| 0 <= a < b < p2.len() implies p2[a] != p2[b] by {
                    if b == p.len() {
                        assert(p2[a] == p[a]);
                        assert(p.contains(p[a]));
                    } else {
                        assert(p2[a] == p[a] && p2[b] == p[b]);
                    }
                }
            }
            dfs_paths(g, end, max_depth, path, out);
            path.pop();
            proof {
                assert(path@ =~= p);
                let p2 = p.push(n);
                let before = paths_view(o1.skip(o0.len() as int));
                let added = paths_view(out@.skip(o1.len() as int));
                assert(out@.take(o0.len() as int) =~= o0) by {
                    assert(out@.take(o1.len() as int) == o1);
                    assert(out@.take(o0.len() as int) =~= o1.take(o0.len() as int));
                }
                assert(paths_view(out@.skip(o0.len() as int)) =~= before + added) by {
                    assert(out@.skip(o0.len() as int) =~= o1.skip(o0.len() as int) + out@.skip(o1.len() as int)) by {
                        assert(out@.take(o1.len() as int) == o1);
                    }
                }
                assert forall|q: Seq<usize>| #[trigger] paths_view(out@.skip(o0.len() as int)).contains(q)
                    <==> (g.simple_path(start, end, max_depth, q) && p.is_prefix_of(q) && q.len() > p.len()
                        && ns.take(j + 1).contains(q[p.len() as int])) by {
                    let all = paths_view(out@.skip(o0.len() as int));
                    assert(ns.take(j + 1) =~= ns.take(j as int).push(n));
                    if all.contains(q) {
                        let k = choose|k: int| 0 <= k < all.len() && all[k] == q;
                        if k < before.len() {
                            assert(before[k] == q);
                            assert(before.contains(q));
                        } else {
                            assert(added[k - before.len()] == q);
                            assert(added.contains(q));
                            assert(p2.is_prefix_of(q));
                            assert(q[p.len() as int] == p2[p.len() as int]);
                            assert(p.is_prefix_of(q)) by {
                                assert(q.subrange(0, p.len() as int) =~= p2.subrange(0, p.len() as int));
                            }
                            assert(ns.take(j + 1)[j as int] == n);
                        }
                    }
                    if g.simple_path(start, end, max_depth, q) && p.is_prefix_of(q) && q.len() > p.len()
                        && ns.take(j + 1).contains(q[p.len() as int]) {
                        if ns.take(j as int).contains(q[p.len() as int]) {
                            assert(before.contains(q));
                            let k = choose|k: int| 0 <= k < before.len() && before[k] == q;
                            assert(all[k] == q);
                        } else {
                            assert(q[p.len() as int] == n);
                            assert(p2.is_prefix_of(q)) by {
                                assert(q.subrange(0, p2.len() as int) =~= p2);
                            }
                            assert(added.contains(q));
                            let k = choose|k: int| 0 <= k < added.len() && added[k] == q;
                            assert(all[before.len() + k] == q);
                        }
                    }
                }
            }
        } else {
            proof {
                let i0 = choose|i: int| 0 <= i < p.len() && p[i] == n;
                assert forall|q: Seq<usize>| #[trigger] paths_view(out@.skip(o0.len() as int)).contains(q)
                    <==> (g.simple_path(start, end, max_depth, q) && p.is_prefix_of(q) && q.len() > p.len()
                        && ns.take(j + 1).contains(q[p.len() as int])) by {
                    assert(ns.take(j + 1) =~= ns.take(j as int).push(n));
                    if g.simple_path(start, end, max_depth, q) && p.is_prefix_of(q) && q.len() > p.len()
                        && q[p.len() as int] == n {
                        assert(q[i0] == p[i0]);
                        assert(q[i0] != q[p.len() as int]);
                    }
                }
            }
        }
        j = j + 1;
    }
    proof {
        assert(ns.len() == nb@.len());
        assert(ns.take(nb@.len() as int) =~= ns);
        assert forall|q: Seq<usize>| #[trigger] paths_view(out@.skip(o0.len() as int)).contains(q)
            <==> (g.simple_path(start, end, max_depth, q) && p.is_prefix_of(q)) by {
            if g.simple_path(start, end, max_depth, q) && p.is_prefix_of(q) {
                if q.len() == p.len() {
                    assert(q =~= p);
                }
                assert(q.len() > p.len());
                assert(q[p.len() - 1] == current);
                assert(g.nbrs(q[p.len() - 1]).contains(q[p.len() as int]));
            }
        }
    }
}

/// Every simple path from `start` to `end` of at most `max_depth` nodes,
/// in depth-first order along the edges.
pub fn all_simple_paths(g: &Graph, start: usize, end: usize, max_depth: usize) -> (r: Vec<Vec<usize>>)
    ensures
        forall|q: Seq<usize>| #[trigger] paths_view(r@).contains(q) <==> g.simple_path(start, end, max_depth, q),
{
    let mut path: Vec<usize> = Vec::new();
    path.push(start);
    let mut out: Vec<Vec<usize>> = Vec::new();
    dfs_paths(g, end, max_depth, &mut path, &mut out);
    proof {
        assert(out@.skip(0) =~= out@);
        assert forall|q: Seq<usize>| #[trigger] paths_view(out@).contains(q) <==> g.simple_path(start, end, max_depth, q) by {
            if g.simple_path(start, end, max_depth, q) {
                assert(seq![start].is_prefix_of(q)) by {
                    assert(q.subrange(0, 1) =~= seq![start]);
                }
            }
        }
    }
    out
}

/// How many stack entries the stack-driven search handles for `p`: `p`
/// itself and, below it, those of its extensions by a neighbour not on it.
pub open spec fn search_size(g: Graph, end: usize, max_depth: usize, p: Seq<usize>) -> nat
    decreases max_depth + 1 - p.len(), g.nbrs(p.last()).len() + 1,
{
    if p.len() == 0 || p.len() > max_depth || p.last() == end {
        1
    } else {
        1 + children_size(g, end, max_depth, p, g.nbrs(p.last()))
    }
}

/// The entries handled below `p` for the neighbours `ns`.
pub open spec fn children_size(g: Graph, end: usize, max_depth: usize, p: Seq<usize>, ns: Seq<usize>) -> nat
    decreases max_depth + 1 - p.len(), ns.len(),
{
    if ns.len() == 0 || p.len() == 0 || p.len() > max_depth || p.last() == end {
        0
    } else {
        children_size(g, end, max_depth, p, ns.drop_last()) + if p.contains(ns.last()) {
            0
        } else {
            search_size(g, end, max_depth, p.push(ns.last()))
        }
    }
}

/// The entries handled for everything on the stack.
pub open spec fn stack_size(g: Graph, end: usize, max_depth: usize, s: Seq<(usize, Vec<usize>)>) -> nat
    decreases s.len(),
{
    if s.len() == 0 {
        0
    } else {
        stack_size(g, end, max_depth, s.drop_last()) + search_size(g, end, max_depth, s.last().1@)
    }
}

/// Every simple path from `start` to `end` of at most `max_depth` nodes,
/// found with a stack of partial paths.
pub fn bfs_paths(g: &Graph, start: usize, end: usize, max_depth: usize) -> (r: Vec<Vec<usize>>)
    ensures
        forall|q: Seq<usize>| #[trigger] paths_view(r@).contains(q) <==> g.simple_path(start, end, max_depth, q),
{
    let mut paths: Vec<Vec<usize>> = Vec::new();
    let mut queue: Vec<(usize, Vec<usize>)> = Vec::new();
    let mut first: Vec<usize> = Vec::new();
    first.push(start);
    queue.push((start, first));
    proof {
        assert forall|q: Seq<usize>| g.simple_path(start, end, max_depth, q) implies
            (exists|i: int| 0 <= i < queue@.len() && #[trigger] queue@[i].1@.is_prefix_of(q)) by {
            assert(queue@[0].1@.is_prefix_of(q)) by {
                assert(q.subrange(0, 1) =~= queue@[0].1@);
            }
        }
    }
    loop
        invariant
            forall|i: int| 0 <= i < queue@.len() ==> {
                let (c, p) = #[trigger] queue@[i];
                &&& g.partial_path(end, p@)
                &&& p@[0] == start
                &&& c == p@.last()
            },
            forall|q: Seq<usize>| #[trigger] paths_view(paths@).contains(q) ==> g.simple_path(start, end, max_depth, q),
            forall|q: Seq<usize>| g.simple_path(start, end, max_depth, q) ==> paths_view(paths@).contains(q)
                || exists|i: int| 0 <= i < queue@.len() && #[trigger] queue@[i].1@.is_prefix_of(q),
        ensures
            forall|q: Seq<usize>| #[trigger] paths_view(paths@).contains(q) <==> g.simple_path(start, end, max_depth, q),
        decreases stack_size(*g, end, max_depth, queue@),
    {
        let ghost before_q = queue@;
        let item = queue.pop();
        let (current, path) = match item {
            None => {
                proof {
                    assert forall|q: Seq<usize>| #[trigger] paths_view(paths@).contains(q) <==> g.simple_path(start, end, max_depth, q) by {
                        if g.simple_path(start, end, max_depth, q) {
                            assert(paths_view(paths@).contains(q));
                        }
                    }
                }
                break;
            },
            Some(x) => x,
        };
        let ghost p = path@;
        let ghost rest = queue@;
        proof {
            assert(rest == before_q.drop_last());
            assert(before_q.last() == (current, path));
            assert(stack_size(*g, end, max_depth, before_q) == stack_size(*g, end, max_depth, rest) + search_size(*g, end, max_depth, p));
            assert forall|i: int| 0 <= i < rest.len() implies #[trigger] rest[i] == before_q[i] by {}
        }
        if path.len() > max_depth {
            proof {
                assert forall|q: Seq<usize>| g.simple_path(start, end, max_depth, q) implies paths_view(paths@).contains(q)
                    || exists|i: int| 0 <= i < queue@.len() && #[trigger] queue@[i].1@.is_prefix_of(q) by {
                    if !paths_view(paths@).contains(q) {
                        let i = choose|i: int| 0 <= i < before_q.len() && #[trigger] before_q[i].1@.is_prefix_of(q);
                        if i == before_q.len() - 1 {
                            assert(q.len() >= p.len());
                        } else {
                            assert(queue@[i] == before_q[i]);
                        }
                    }
                }
            }
            continue;
        }
        if current == end {
            let ghost pv = paths_view(paths@);
            paths.push(path);
            proof {
                assert(paths_view(paths@) =~= pv.push(p));
                assert forall|q: Seq<usize>| #[trigger] paths_view(paths@).contains(q) implies g.simple_path(start, end, max_depth, q) by {
                    let k = choose|k: int| 0 <= k < paths_view(paths@).len() && paths_view(paths@)[k] == q;
                    if k < pv.len() {
                        assert(pv[k] == q);
                        assert(pv.contains(q));
                    }
                }
                assert forall|q: Seq<usize>| g.simple_path(start, end, max_depth, q) implies paths_view(paths@).contains(q)
                    || exists|i: int| 0 <= i < queue@.len() && #[trigger] queue@[i].1@.is_prefix_of(q) by {
                    if pv.contains(q) {
                        let k = choose|k: int| 0 <= k < pv.len() && pv[k] == q;
                        assert(paths_view(paths@)[k] == q);
                    } else {
                        let i = choose|i: int| 0 <= i < before_q.len() && #[trigger] before_q[i].1@.is_prefix_of(q);
                        if i == before_q.len() - 1 {
                            if q.len() > p.len() {
                                assert(q[p.len() - 1] == p[p.len() - 1]);
                                assert(q[p.len() - 1] != q[q.len() - 1]);
                            }
                            assert(q =~= p);
                            assert(paths_view(paths@)[pv.len() as int] == q);
                        } else {
                            assert(queue@[i] == before_q[i]);
                        }
                    }
                }
            }
            continue;
        }
        let nb = g.get_neighbors(current);
        let ghost ns = g.nbrs(current);
        let mut j: usize = 0;
        proof {
            assert(ns.take(0) =~= Seq::<usize>::empty());
            assert(queue@ == rest);
        }
        while j < nb.len()
            invariant
                j <= nb@.len(),
                nb@ == g.out(current),
                ns == g.nbrs(current),
                ns.len() == nb@.len(),
                p == path@,
                1 <= p.len() <= max_depth,
                current == p.last(),
                current != end,
                p[0] == start,
                g.partial_path(end, p),
                queue@.len() >= rest.len(),
                forall|i: int| 0 <= i < rest.len() ==> #[trigger] queue@[i] == rest[i],
                forall|i: int| 0 <= i < queue@.len() ==> {
                    let (c, pp) = #[trigger] queue@[i];
                    &&& g.partial_path(end, pp@)
                    &&& pp@[0] == start
                    &&& c == pp@.last()
                },
                forall|i: int| rest.len() <= i < queue@.len() ==> (#[trigger] queue@[i]).1@.len() == p.len() + 1
                    && p.is_prefix_of(queue@[i].1@),
                forall|k: int| 0 <= k < j && !p.contains(ns[k]) ==> exists|i: int| rest.len() <= i < queue@.len()
                    && #[trigger] queue@[i].1@ == p.push(ns[k]),
                stack_size(*g, end, max_depth, queue@) == stack_size(*g, end, max_depth, rest)
                    + children_size(*g, end, max_depth, p, ns.take(j as int)),
            decreases nb@.len() - j,
        {
            let n = nb[j].0;
            assert(ns[j as int] == n);
            proof {
                assert(ns.take(j + 1).drop_last() =~= ns.take(j as int));
                assert(ns.take(j + 1).last() == n);
            }
            if !contains_node(&path, n) {
                let mut np = copy_path(&path);
                np.push(n);
                let ghost npv = np@;
                let ghost bq = queue@;
                proof {
                    assert(npv == p.push(n));
                    assert forall|i: int| #![trigger npv[i]] 0 < i < npv.len() implies g.nbrs(npv[i - 1]).contains(npv[i]) by {
                        if i == p.len() {
                            assert(ns.contains(n));
                        } else {
                            assert(npv[i] == p[i] && npv[i - 1] == p[i - 1]);
                        }
                    }
                    assert forall|a: int, b: int| 0 <= a < b < npv.len() implies npv[a] != npv[b] by {
                        if b == p.len() {
                            assert(npv[a] == p[a]);
                            assert(p.contains(p[a]));
                        } else {
                            assert(npv[a] == p[a] && npv[b] == p[b]);
                        }
                    }
                    assert(p.is_prefix_of(npv)) by {
                        assert(npv.subrange(0, p.len() as int) =~= p);
                    }
                }
                queue.push((n, np));
                proof {
                    assert(queue@.drop_last() =~= bq);
                    assert(queue@.last().1@ == npv);
                    assert forall|k: int| 0 <= k < j + 1 && !p.contains(ns[k]) implies exists|i: int| rest.len() <= i < queue@.len()
                        && #[trigger] queue@[i].1@ == p.push(ns[k]) by {
                        if k < j {
                            let i = choose|i: int| rest.len() <= i < bq.len() && #[trigger] bq[i].1@ == p.push(ns[k]);
                            assert(queue@[i] == bq[i]);
                        } else {
                            assert(queue@[bq.len() as int].1@ == p.push(ns[k]));
                        }
                    }
                    assert forall|i: int| 0 <= i < queue@.len() implies {
                        let (c, pp) = #[trigger] queue@[i];
                        &&& g.partial_path(end, pp@)
                        &&& pp@[0] == start
                        &&& c == pp@.last()
                    } by {
                        if i < bq.len() {
                            assert(queue@[i] == bq[i]);
                        }
                    }
                }
            } else {
                proof {
                    assert forall|k: int| 0 <= k < j + 1 && !p.contains(ns[k]) implies exists|i: int| rest.len() <= i < queue@.len()
                        && #[trigger] queue@[i].1@ == p.push(ns[k]) by {
                        if k == j {
                            assert(p.contains(ns[k]));
                        }
                    }
                }
            }
            j = j + 1;
        }
        proof {
            assert(ns.take(nb@.len() as int) =~= ns);
            assert(search_size(*g, end, max_depth, p) == 1 + children_size(*g, end, max_depth, p, ns));
            assert forall|q: Seq<usize>| g.simple_path(start, end, max_depth, q) implies paths_view(paths@).contains(q)
                || exists|i: int| 0 <= i < queue@.len() && #[trigger] queue@[i].1@.is_prefix_of(q) by {
                if !paths_view(paths@).contains(q) {
                    let i = choose|i: int| 0 <= i < before_q.len() && #[trigger] before_q[i].1@.is_prefix_of(q);
                    if i == before_q.len() - 1 {
                        if q.len() == p.len() {
                            assert(q =~= p);
                        }
                        assert(q.len() > p.len());
                        let x = q[p.len() as int];
                        assert(q[p.len() - 1] == current);
                        assert(g.nbrs(q[p.len() - 1]).contains(x));
                        let k = choose|k: int| 0 <= k < ns.len() && ns[k] == x;
                        assert(!p.contains(x)) by {
                            if p.contains(x) {
                                let m = choose|m: int| 0 <= m < p.len() && p[m] == x;
                                assert(q[m] == p[m]);
                            }
                        }
                        let i2 = choose|i2: int| rest.len() <= i2 < queue@.len() && #[trigger] queue@[i2].1@ == p.push(ns[k]);
                        assert(queue@[i2].1@.is_prefix_of(q)) by {
                            assert(q.subrange(0, p.len() as int + 1) =~= p.push(x));
                        }
                    } else {
                        assert(queue@[i] == rest[i]);
                    }
                }
            }
        }
    }
    paths
}

/// The two searches find the same paths: any results that meet the
/// contract of [`bfs_paths`] and of [`all_simple_paths`] for the same
/// arguments hold the same paths.
pub proof fn law_searches_agree(
    g: Graph,
    start: usize,
    end: usize,
    max_depth: usize,
    by_stack: Seq<Seq<usize>>,
    by_recursion: Seq<Seq<usize>>,
)
    requires
        forall|q: Seq<usize>| #[trigger] by_stack.contains(q) <==> g.simple_path(start, end, max_depth, q),
        forall|q: Seq<usize>| #[trigger] by_recursion.contains(q) <==> g.simple_path(start, end, max_depth, q),
    ensures
        forall|q: Seq<usize>| #[trigger] by_stack.contains(q) <==> by_recursion.contains(q),
{
    assert forall|q: Seq<usize>| #[trigger] by_stack.contains(q) <==> by_recursion.contains(q) by {
        assert(by_stack.contains(q) <==> g.simple_path(start, end, max_depth, q));
        assert(by_recursion.contains(q) <==> g.simple_path(start, end, max_depth, q));
    }
}

} // verus!
