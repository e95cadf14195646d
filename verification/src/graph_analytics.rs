//! Graph analytics on the integer structure of a graph: hop distances,
//! connected components and label-propagation community detection.
//! (Centrality measures and PageRank compute in floating point and are not
//! part of this module.)

use vstd::prelude::*;
use crate::graph::{Graph, vec_contains};
use crate::magic_traversal::{expand, within, level, post, lemma_level_step, lemma_within_level};
use crate::graph_ops::lemma_nbrs_are_nodes;

verus! {

/// Community-detection algorithms.
#[derive(Clone, Copy, Debug, PartialEq, Eq, Structural)]
pub enum CommunityAlgorithm {
    Louvain,
    LabelPropagation,
    ConnectedComponents,
}

/// Centrality algorithms.
#[derive(Clone, Copy, Debug, PartialEq, Eq, Structural)]
pub enum CentralityAlgorithm {
    Degree,
    Betweenness,
    Closeness,
    Eigenvector,
}

/// Graph analytics entry points.
pub struct GraphAnalytics;

/// Once a level is empty, the ball stops growing.
pub proof fn lemma_within_stable(g: Graph, s: Set<u64>, d: nat, k: nat)
    requires
        d >= 1,
        level(g, s, d, None) == Set::<u64>::empty(),
        k >= d - 1,
    ensures
        within(g, s, k, None) == within(g, s, (d - 1) as nat, None),
    decreases k,
{
    lemma_within_level(g, s, d, None);
    assert(within(g, s, d, None) =~= within(g, s, (d - 1) as nat, None));
    if k > d {
        lemma_within_stable(g, s, d, (k - 1) as nat);
        let wp = within(g, s, (k - 1) as nat, None);
        assert(wp == within(g, s, d, None));
        assert forall|w: u64| post(g, wp, None).contains(w) implies wp.contains(w) by {
            assert(post(g, within(g, s, (d - 1) as nat, None), None).contains(w));
        }
        assert(within(g, s, k, None) =~= wp);
    }
}

/// Every node reached past the start set is a node of the graph.
proof fn lemma_within_nodes(g: Graph, s: Set<u64>, k: nat)
    ensures
        forall|x: u64| #[trigger] within(g, s, k, None).contains(x) ==> s.contains(x) || g.has_node(x),
    decreases k,
{
    if k > 0 {
        lemma_within_nodes(g, s, (k - 1) as nat);
        assert forall|x: u64| #[trigger] within(g, s, k, None).contains(x) implies s.contains(x) || g.has_node(x) by {
            if post(g, within(g, s, (k - 1) as nat, None), None).contains(x) {
                let u = choose|u: u64| within(g, s, (k - 1) as nat, None).contains(u) && #[trigger] g.step(u, x, None);
                let nb = g.nbrs(u);
                assert(nb.contains(x));
                let i = choose|i: int| 0 <= i < nb.len() && nb[i] == x;
                let pred = |t: u64| g.has_node(t);
                g.spec_edges(u).map_values(|e: crate::graph::Edge| e.target_id).lemma_filter_pred(pred, i);
            }
        }
    }
}

impl GraphAnalytics {
    /// Hop distance from `start` to `end` along edges: 0 when they are equal,
    /// the least `d` with `end` within `d` steps of `start`, or `u32::MAX`
    /// when `end` is not reachable at all.
    pub fn bfs_distance(g: &Graph, start: u64, end: u64) -> (r: Result<u32, String>)
        requires
            g.spec_ids().len() < u32::MAX,
        ensures
            r matches Ok(d) && ({
                let s = set![start];
                if d == u32::MAX {
                    forall|k: nat| !(#[trigger] within(*g, s, k, None)).contains(end)
                } else {
                    &&& within(*g, s, d as nat, None).contains(end)
                    &&& (d == 0 || !within(*g, s, (d - 1) as nat, None).contains(end))
                }
            }),
    {
        let ghost s = set![start];
        if start == end {
            return Ok(0);
        }
        let mut visited: Vec<u64> = Vec::new();
        visited.push(start);
        let mut delta: Vec<u64> = Vec::new();
        delta.push(start);
        let mut d: u32 = 0;
        proof {
            assert(visited@.to_set() =~= s) by {
                assert(visited@[0] == start);
            }
            assert(delta@.to_set() =~= s) by {
                assert(delta@[0] == start);
            }
            use_type_invariant(g);
            g.lemma_ids_no_dup();
            g.spec_ids().unique_seq_to_set();
        }
        loop
            invariant
                d <= visited@.len() - 1,
                visited@.len() >= 1,
                s == set![start],
                start != end,
                visited@.no_duplicates(),
                visited@.to_set() == within(*g, s, d as nat, None),
                delta@.to_set() == level(*g, s, d as nat, None),
                !within(*g, s, d as nat, None).contains(end) || level(*g, s, d as nat, None).contains(end),
                delta@.len() > 0,
                visited@.len() <= g.spec_ids().len() + 1,
                d == 0 || !within(*g, s, (d - 1) as nat, None).contains(end),
                g.spec_ids().len() < u32::MAX,
                g.spec_ids().to_set().len() == g.spec_ids().len(),
            decreases g.spec_ids().len() + 2 - visited@.len(),
        {
            if vec_contains(&delta, end) {
                proof {
                    assert(delta@.to_set().contains(end));
                    if d > 0 {
                        lemma_within_level(*g, s, d as nat, None);
                    }
                }
                return Ok(d);
            }
            let next = expand(g, &delta, &visited, None);
            proof {
                lemma_level_step(*g, s, d as nat, None);
                assert forall|w: u64| next@.to_set().contains(w) <==> level(*g, s, (d + 1) as nat, None).contains(w) by {
                    assert(next@.contains(w) == next@.to_set().contains(w));
                    if next@.contains(w) {
                        let u = choose|u: u64| delta@.contains(u) && #[trigger] g.step(u, w, None);
                        assert(delta@.to_set().contains(u));
                        assert(!visited@.to_set().contains(w));
                    }
                    if level(*g, s, (d + 1) as nat, None).contains(w) {
                        let u = choose|u: u64| level(*g, s, d as nat, None).contains(u) && #[trigger] g.step(u, w, None);
                        assert(delta@.to_set().contains(u));
                        assert(delta@.contains(u));
                        assert(!visited@.to_set().contains(w));
                    }
                }
                assert(next@.to_set() =~= level(*g, s, (d + 1) as nat, None));
            }
            if next.len() == 0 {
                proof {
                    assert(level(*g, s, (d + 1) as nat, None) =~= Set::<u64>::empty()) by {
                        assert(next@.to_set() =~= Set::<u64>::empty());
                    }
                    assert(!within(*g, s, d as nat, None).contains(end));
                    assert forall|k: nat| !(#[trigger] within(*g, s, k, None)).contains(end) by {
                        if k <= d {
                            crate::magic_traversal::lemma_within_mono(*g, s, k, d as nat, None);
                        } else {
                            lemma_within_stable(*g, s, (d + 1) as nat, k);
                        }
                    }
                }
                return Ok(u32::MAX);
            }
            let ghost vstart = visited@;
            let mut i: usize = 0;
            while i < next.len()
                invariant
                    i <= next@.len(),
                    next@.no_duplicates(),
                    forall|w: u64| next@.contains(w) ==> !vstart.contains(w),
                    visited@ == vstart + next@.take(i as int),
                    vstart.no_duplicates(),
                decreases next@.len() - i,
            {
                proof {
                    assert(next@.take(i + 1) =~= next@.take(i as int).push(next@[i as int]));
                }
                visited.push(next[i]);
                i = i + 1;
            }
            proof {
                assert(next@.take(next@.len() as int) =~= next@);
                assert(visited@.no_duplicates()) by {
                    assert forall|a: int, b: int| 0 <= a < b < visited@.len() implies visited@[a] != visited@[b] by {
                        if b >= vstart.len() && a < vstart.len() {
                            assert(next@.contains(visited@[b]));
                            assert(vstart.contains(visited@[a]));
                        }
                    }
                }
                lemma_within_level(*g, s, (d + 1) as nat, None);
                assert forall|y: u64| visited@.to_set().contains(y) <==> vstart.to_set().union(next@.to_set()).contains(y) by {
                    if visited@.contains(y) {
                        let j = choose|j: int| 0 <= j < visited@.len() && visited@[j] == y;
                        if j >= vstart.len() {
                            assert(next@[j - vstart.len()] == y);
                        } else {
                            assert(vstart[j] == y);
                        }
                    }
                    if vstart.contains(y) {
                        let j = choose|j: int| 0 <= j < vstart.len() && vstart[j] == y;
                        assert(visited@[j] == y);
                    }
                    if next@.contains(y) {
                        let j = choose|j: int| 0 <= j < next@.len() && next@[j] == y;
                        assert(visited@[vstart.len() + j] == y);
                    }
                }
                assert(visited@.to_set() =~= vstart.to_set().union(next@.to_set()));
                // the visited nodes are the start node and nodes of the graph
                lemma_within_nodes(*g, s, (d + 1) as nat);
                let bound = g.spec_ids().to_set().insert(start);
                assert(visited@.to_set().subset_of(bound));
                vstd::seq_lib::seq_to_set_is_finite(g.spec_ids());
                vstd::set_lib::lemma_len_subset(visited@.to_set(), bound);
                visited@.unique_seq_to_set();
                assert(bound.len() <= g.spec_ids().to_set().len() + 1);
                if next@.len() > 0 {
                    assert(next@.contains(next@[0]));
                }
                // end was not found at this level
                assert(!within(*g, s, d as nat, None).contains(end));
                if within(*g, s, (d + 1) as nat, None).contains(end) {
                    assert(level(*g, s, (d + 1) as nat, None).contains(end));
                }
            }
            delta = next;
            d = d + 1;
        }
    }
}

/// Whether `y` is reachable from `x` along edges (in zero or more steps).
pub open spec fn reaches(g: Graph, x: u64, y: u64) -> bool {
    exists|k: nat| #[trigger] within(g, set![x], k, None).contains(y)
}

/// The ball around `y` lies inside the ball around `x` grown by the
/// distance from `x` to `y`.
proof fn lemma_within_shift(g: Graph, x: u64, y: u64, m: nat, k: nat)
    requires
        within(g, set![x], m, None).contains(y),
    ensures
        within(g, set![y], k, None).subset_of(within(g, set![x], m + k, None)),
    decreases k,
{
    if k > 0 {
        lemma_within_shift(g, x, y, m, (k - 1) as nat);
        let a = within(g, set![y], (k - 1) as nat, None);
        let b = within(g, set![x], (m + k - 1) as nat, None);
        assert(within(g, set![x], m + k, None) == b.union(post(g, b, None)));
        assert forall|w: u64| post(g, a, None).contains(w) implies post(g, b, None).contains(w) by {
            let u = choose|u: u64| a.contains(u) && #[trigger] g.step(u, w, None);
            assert(b.contains(u));
        }
    }
}

/// Reachability is transitive.
pub proof fn lemma_reaches_trans(g: Graph, x: u64, y: u64, z: u64)
    requires
        reaches(g, x, y),
        reaches(g, y, z),
    ensures
        reaches(g, x, z),
{
    let m = choose|m: nat| #[trigger] within(g, set![x], m, None).contains(y);
    let k = choose|k: nat| #[trigger] within(g, set![y], k, None).contains(z);
    lemma_within_shift(g, x, y, m, k);
    assert(within(g, set![x], m + k, None).contains(z));
}

/// Every node reaches itself.
pub proof fn lemma_reaches_refl(g: Graph, x: u64)
    ensures
        reaches(g, x, x),
{
    assert(within(g, set![x], 0, None).contains(x));
}

/// The nodes reachable from `s`, each once.
pub fn reachable(g: &Graph, s: u64) -> (r: Vec<u64>)
    ensures
        r@.no_duplicates(),
        forall|y: u64| r@.contains(y) <==> reaches(*g, s, y),
{
    let ghost ss = set![s];
    let mut visited: Vec<u64> = Vec::new();
    visited.push(s);
    let mut delta: Vec<u64> = Vec::new();
    delta.push(s);
    let ghost mut d: nat = 0;
    proof {
        assert(visited@.to_set() =~= ss) by {
            assert(visited@[0] == s);
        }
        assert(delta@.to_set() =~= ss) by {
            assert(delta@[0] == s);
        }
        use_type_invariant(g);
        g.lemma_ids_no_dup();
        g.spec_ids().unique_seq_to_set();
    }
    loop
        invariant
            visited@.len() >= 1,
            ss == set![s],
            visited@.no_duplicates(),
            visited@.to_set() == within(*g, ss, d, None),
            delta@.to_set() == level(*g, ss, d, None),
            visited@.len() <= g.spec_ids().len() + 1,
            g.spec_ids().to_set().len() == g.spec_ids().len(),
        decreases g.spec_ids().len() + 2 - visited@.len(),
    {
        let next = expand(g, &delta, &visited, None);
        proof {
            lemma_level_step(*g, ss, d, None);
            assert forall|w: u64| next@.to_set().contains(w) <==> level(*g, ss, d + 1, None).contains(w) by {
                assert(next@.contains(w) == next@.to_set().contains(w));
                if next@.contains(w) {
                    let u = choose|u: u64| delta@.contains(u) && #[trigger] g.step(u, w, None);
                    assert(delta@.to_set().contains(u));
                    assert(!visited@.to_set().contains(w));
                }
                if level(*g, ss, d + 1, None).contains(w) {
                    let u = choose|u: u64| level(*g, ss, d, None).contains(u) && #[trigger] g.step(u, w, None);
                    assert(delta@.to_set().contains(u));
                    assert(delta@.contains(u));
                    assert(!visited@.to_set().contains(w));
                }
            }
            assert(next@.to_set() =~= level(*g, ss, d + 1, None));
        }
        if next.len() == 0 {
            proof {
                assert(level(*g, ss, d + 1, None) =~= Set::<u64>::empty()) by {
                    assert(next@.to_set() =~= Set::<u64>::empty());
                }
                assert forall|y: u64| visited@.contains(y) <==> reaches(*g, s, y) by {
                    assert(visited@.contains(y) == visited@.to_set().contains(y));
                    if reaches(*g, s, y) {
                        let k = choose|k: nat| #[trigger] within(*g, set![s], k, None).contains(y);
                        if k <= d {
                            crate::magic_traversal::lemma_within_mono(*g, ss, k, d, None);
                        } else {
                            lemma_within_stable(*g, ss, d + 1, k);
                        }
                    }
                }
            }
            return visited;
        }
        let ghost vstart = visited@;
        let mut i: usize = 0;
        while i < next.len()
            invariant
                i <= next@.len(),
                next@.no_duplicates(),
                forall|w: u64| next@.contains(w) ==> !vstart.contains(w),
                visited@ == vstart + next@.take(i as int),
                vstart.no_duplicates(),
            decreases next@.len() - i,
        {
            proof {
                assert(next@.take(i + 1) =~= next@.take(i as int).push(next@[i as int]));
            }
            visited.push(next[i]);
            i = i + 1;
        }
        proof {
            assert(next@.take(next@.len() as int) =~= next@);
            assert(visited@.no_duplicates()) by {
                assert forall|a: int, b: int| 0 <= a < b < visited@.len() implies visited@[a] != visited@[b] by {
                    if b >= vstart.len() && a < vstart.len() {
                        assert(next@.contains(visited@[b]));
                        assert(vstart.contains(visited@[a]));
                    }
                }
            }
            lemma_within_level(*g, ss, d + 1, None);
            assert forall|y: u64| visited@.to_set().contains(y) <==> vstart.to_set().union(next@.to_set()).contains(y) by {
                if visited@.contains(y) {
                    let j = choose|j: int| 0 <= j < visited@.len() && visited@[j] == y;
                    if j >= vstart.len() {
                        assert(next@[j - vstart.len()] == y);
                    } else {
                        assert(vstart[j] == y);
                    }
                }
                if vstart.contains(y) {
                    let j = choose|j: int| 0 <= j < vstart.len() && vstart[j] == y;
                    assert(visited@[j] == y);
                }
                if next@.contains(y) {
                    let j = choose|j: int| 0 <= j < next@.len() && next@[j] == y;
                    assert(visited@[vstart.len() + j] == y);
                }
            }
            assert(visited@.to_set() =~= vstart.to_set().union(next@.to_set()));
            lemma_within_nodes(*g, ss, d + 1);
            let bound = g.spec_ids().to_set().insert(s);
            assert(visited@.to_set().subset_of(bound));
            vstd::seq_lib::seq_to_set_is_finite(g.spec_ids());
            vstd::set_lib::lemma_len_subset(visited@.to_set(), bound);
            visited@.unique_seq_to_set();
            assert(bound.len() <= g.spec_ids().to_set().len() + 1);
            assert(next@.contains(next@[0]));
        }
        delta = next;
        proof {
            d = d + 1;
        }
    }
}

/// Whether the node at position `i` is reached from no node before it: the
/// components are numbered in the order of these nodes.
pub open spec fn is_start(g: Graph, i: int) -> bool {
    forall|k: int| 0 <= k < i ==> !#[trigger] reaches(g, g.spec_ids()[k], g.spec_ids()[i])
}

/// How many of the first `i` nodes start a component.
pub open spec fn count_starts(g: Graph, i: int) -> nat
    decreases i,
{
    if i <= 0 {
        0
    } else {
        count_starts(g, i - 1) + if is_start(g, i - 1) { 1nat } else { 0nat }
    }
}

/// Component `c` holds the node at position `j`: `c` counts the starts
/// before the first node (in order) that reaches it.
pub open spec fn in_component(g: Graph, j: int, c: nat) -> bool {
    let ids = g.spec_ids();
    exists|i: int| 0 <= i <= j && #[trigger] reaches(g, ids[i], ids[j])
        && (forall|k: int| 0 <= k < i ==> !#[trigger] reaches(g, ids[k], ids[j]))
        && c == count_starts(g, i)
}

proof fn lemma_count_starts_bound(g: Graph, i: int)
    requires
        i >= 0,
    ensures
        count_starts(g, i) <= i,
    decreases i,
{
    if i > 0 {
        lemma_count_starts_bound(g, i - 1);
    }
}

impl GraphAnalytics {
    /// Components by breadth-first search along edges: nodes are taken in
    /// order, and each one not yet reached opens the next component, which
    /// holds every node it reaches that no earlier component holds. Returns
    /// `(node, component)` for every node, in node order.
    pub fn connected_components(g: &Graph) -> (r: Result<Vec<(u64, u32)>, String>)
        requires
            g.spec_ids().len() < u32::MAX,
        ensures
            r matches Ok(v) && v@.len() == g.spec_ids().len()
                && forall|j: int| 0 <= j < v@.len() ==> (#[trigger] v@[j]).0 == g.spec_ids()[j]
                    && in_component(*g, j, v@[j].1 as nat),
    {
        let ids = g.node_ids();
        let n = ids.len();
        let ghost gs = *g;
        let mut lab: Vec<u32> = Vec::new();
        let mut asg: Vec<bool> = Vec::new();
        let mut t: usize = 0;
        while t < n
            invariant
                t <= n,
                lab@.len() == t,
                asg@.len() == t,
                forall|j: int| 0 <= j < t ==> !asg@[j],
            decreases n - t,
        {
            lab.push(0);
            asg.push(false);
            t = t + 1;
        }
        let mut c: u32 = 0;
        let mut i: usize = 0;
        while i < n
            invariant
                gs == *g,
                ids@ == gs.spec_ids(),
                n == ids@.len(),
                n < u32::MAX,
                i <= n,
                lab@.len() == n,
                asg@.len() == n,
                c == count_starts(gs, i as int),
                forall|j: int| 0 <= j < n ==> (#[trigger] asg@[j] <==> exists|k: int| 0 <= k < i
                    && #[trigger] reaches(gs, ids@[k], ids@[j])),
                forall|j: int| 0 <= j < n && #[trigger] asg@[j] ==> in_component(gs, j, lab@[j] as nat),
            decreases n - i,
        {
            proof {
                lemma_count_starts_bound(gs, i as int);
            }
            if asg[i] {
                proof {
                    let k0 = choose|k: int| 0 <= k < i && #[trigger] reaches(gs, ids@[k], ids@[i as int]);
                    assert(!is_start(gs, i as int));
                    assert forall|j: int| 0 <= j < n implies (#[trigger] asg@[j] <==> exists|k: int| 0 <= k < i + 1
                        && #[trigger] reaches(gs, ids@[k], ids@[j])) by {
                        if reaches(gs, ids@[i as int], ids@[j]) {
                            lemma_reaches_trans(gs, ids@[k0], ids@[i as int], ids@[j]);
                        }
                    }
                }
            } else {
                let reach = reachable(g, ids[i]);
                let ghost asg0 = asg@;
                let ghost lab0 = lab@;
                proof {
                    assert(is_start(gs, i as int));
                }
                let mut j: usize = 0;
                while j < n
                    invariant
                        gs == *g,
                        ids@ == gs.spec_ids(),
                        n == ids@.len(),
                        i < n,
                        j <= n,
                        lab@.len() == n,
                        asg@.len() == n,
                        asg0.len() == n,
                        lab0.len() == n,
                        c == count_starts(gs, i as int),
                        forall|y: u64| reach@.contains(y) <==> reaches(gs, ids@[i as int], y),
                        forall|q: int| 0 <= q < n ==> (#[trigger] asg0[q] <==> exists|k: int| 0 <= k < i
                            && #[trigger] reaches(gs, ids@[k], ids@[q])),
                        forall|q: int| 0 <= q < n && #[trigger] asg0[q] ==> in_component(gs, q, lab0[q] as nat),
                        forall|q: int| j <= q < n ==> asg@[q] == asg0[q] && lab@[q] == lab0[q],
                        forall|q: int| 0 <= q < j ==> (#[trigger] asg@[q] <==> asg0[q] || reaches(gs, ids@[i as int], ids@[q])),
                        forall|q: int| 0 <= q < j && #[trigger] asg@[q] ==> in_component(gs, q, lab@[q] as nat),
                    decreases n - j,
                {
                    if !asg[j] && vec_contains(&reach, ids[j]) {
                        proof {
                            assert(!asg0[j as int]);
                            assert(reaches(gs, ids@[i as int], ids@[j as int]));
                            assert forall|k: int| 0 <= k < i implies !#[trigger] reaches(gs, ids@[k], ids@[j as int]) by {}
                            if j < i {
                                lemma_reaches_refl(gs, ids@[j as int]);
                                assert(asg0[j as int]);
                            }
                            assert(in_component(gs, j as int, c as nat));
                        }
                        asg.set(j, true);
                        lab.set(j, c);
                    } else {
                        proof {
                            if asg@[j as int] {
                                assert(asg0[j as int]);
                                assert(in_component(gs, j as int, lab0[j as int] as nat));
                            } else {
                                assert(!reach@.contains(ids@[j as int]));
                            }
                        }
                    }
                    j = j + 1;
                }
                c = c + 1;
            }
            i = i + 1;
        }
        let mut out: Vec<(u64, u32)> = Vec::new();
        let mut q: usize = 0;
        while q < n
            invariant
                gs == *g,
                ids@ == gs.spec_ids(),
                n == ids@.len(),
                q <= n,
                lab@.len() == n,
                asg@.len() == n,
                forall|j: int| 0 <= j < n ==> (#[trigger] asg@[j] <==> exists|k: int| 0 <= k < n
                    && #[trigger] reaches(gs, ids@[k], ids@[j])),
                forall|j: int| 0 <= j < n && #[trigger] asg@[j] ==> in_component(gs, j, lab@[j] as nat),
                out@.len() == q,
                forall|j: int| 0 <= j < q ==> (#[trigger] out@[j]).0 == ids@[j] && in_component(gs, j, out@[j].1 as nat),
            decreases n - q,
        {
            proof {
                lemma_reaches_refl(gs, ids@[q as int]);
                assert(asg@[q as int]);
            }
            out.push((ids[q], lab[q]));
            q = q + 1;
        }
        Ok(out)
    }
}

/// How many times `x` occurs in `s`.
pub open spec fn occurrences(s: Seq<u32>, x: u32) -> nat
    decreases s.len(),
{
    if s.len() == 0 {
        0
    } else {
        occurrences(s.drop_last(), x) + if s.last() == x { 1nat } else { 0nat }
    }
}

/// Scanning `s` from position `i` with the current choice `best` seen
/// `count` times: an element replaces the choice when it occurs strictly more
/// often.
pub open spec fn frequent_scan(s: Seq<u32>, i: int, best: u32, count: nat) -> u32
    decreases s.len() - i,
{
    if i >= s.len() || i < 0 {
        best
    } else {
        let c = occurrences(s, s[i]);
        if c > count {
            frequent_scan(s, i + 1, s[i], c)
        } else {
            frequent_scan(s, i + 1, best, count)
        }
    }
}

/// The most frequent element of a non-empty `s`, the first one seen among
/// equally frequent ones.
pub open spec fn most_frequent_of(s: Seq<u32>) -> u32 {
    frequent_scan(s, 1, s[0], occurrences(s, s[0]))
}

proof fn lemma_frequent_scan(s: Seq<u32>, i: int, best: u32, count: nat, kb: int)
    requires
        1 <= i <= s.len(),
        0 <= kb < i,
        s[kb] == best,
        count == occurrences(s, best),
        forall|k: int| 0 <= k < i ==> occurrences(s, #[trigger] s[k]) <= count,
        forall|k: int| 0 <= k < kb ==> occurrences(s, #[trigger] s[k]) < count,
    ensures
        ({
            let r = frequent_scan(s, i, best, count);
            &&& s.contains(r)
            &&& forall|l: u32| #[trigger] s.contains(l) ==> occurrences(s, l) <= occurrences(s, r)
            &&& exists|k: int| 0 <= k < s.len() && s[k] == r
                && forall|m: int| 0 <= m < k ==> occurrences(s, #[trigger] s[m]) < occurrences(s, r)
        }),
    decreases s.len() - i,
{
    if i < s.len() {
        let c = occurrences(s, s[i]);
        if c > count {
            lemma_frequent_scan(s, i + 1, s[i], c, i);
        } else {
            lemma_frequent_scan(s, i + 1, best, count, kb);
        }
    } else {
        assert(s.contains(s[kb]));
        assert forall|l: u32| #[trigger] s.contains(l) implies occurrences(s, l) <= count by {
            let k = choose|k: int| 0 <= k < s.len() && s[k] == l;
            assert(occurrences(s, s[k]) <= count);
        }
    }
}

/// The most frequent element of a non-empty sequence occurs in it, no
/// element occurs more often, and every element before its first
/// occurrence occurs strictly less often.
pub proof fn law_most_frequent(s: Seq<u32>)
    requires
        s.len() > 0,
    ensures
        s.contains(most_frequent_of(s)),
        forall|l: u32| #[trigger] s.contains(l) ==> occurrences(s, l) <= occurrences(s, most_frequent_of(s)),
        exists|k: int| 0 <= k < s.len() && s[k] == most_frequent_of(s)
            && forall|m: int| 0 <= m < k ==> occurrences(s, #[trigger] s[m]) < occurrences(s, most_frequent_of(s)),
{
    lemma_frequent_scan(s, 1, s[0], occurrences(s, s[0]), 0);
}

/// A most frequent element of a non-empty `labels`: it occurs in `labels`
/// and no element occurs more often; among equally frequent ones, the one
/// seen first.
pub fn most_frequent(labels: &[u32]) -> (best: u32)
    requires
        labels@.len() > 0,
    ensures
        labels@.contains(best),
        forall|l: u32| #[trigger] labels@.contains(l) ==> occurrences(labels@, l) <= occurrences(labels@, best),
        exists|k: int| 0 <= k < labels@.len() && labels@[k] == best
            && forall|j: int| 0 <= j < k ==> occurrences(labels@, #[trigger] labels@[j]) < occurrences(labels@, best),
        best == most_frequent_of(labels@),
{
    let n = labels.len();
    let mut best = labels[0];
    let mut best_count: usize = 0;
    let mut i: usize = 0;
    let ghost mut kb: int = 0;
    while i < n
        invariant
            n == labels@.len(),
            n > 0,
            i <= n,
            labels@.contains(best),
            i > 0 ==> best_count == occurrences(labels@, best),
            forall|k: int| 0 <= k < i ==> occurrences(labels@, #[trigger] labels@[k]) <= best_count,
            i > 0 ==> 0 <= kb < i && labels@[kb] == best
                && forall|j: int| 0 <= j < kb ==> occurrences(labels@, #[trigger] labels@[j]) < best_count,
            i > 0 ==> frequent_scan(labels@, i as int, best, best_count as nat) == most_frequent_of(labels@),
        decreases n - i,
    {
        let x = labels[i];
        let mut cnt: usize = 0;
        let mut t: usize = 0;
        while t < n
            invariant
                n == labels@.len(),
                t <= n,
                cnt == occurrences(labels@.take(t as int), x),
                cnt <= t,
            decreases n - t,
        {
            proof {
                assert(labels@.take(t + 1).drop_last() =~= labels@.take(t as int));
            }
            if labels[t] == x {
                cnt = cnt + 1;
            }
            t = t + 1;
        }
        proof {
            assert(labels@.take(n as int) =~= labels@);
        }
        if i == 0 || cnt > best_count {
            best = x;
            best_count = cnt;
            proof {
                kb = i as int;
            }
        }
        i = i + 1;
    }
    proof {
        assert forall|l: u32| #[trigger] labels@.contains(l) implies occurrences(labels@, l) <= occurrences(labels@, best) by {
            let k = choose|k: int| 0 <= k < labels@.len() && labels@[k] == l;
            assert(occurrences(labels@, labels@[k]) <= best_count);
        }
        assert(labels@[kb] == best);
    }
    best
}

/// The position of `x` in `ids`, if it occurs.
fn position_of(ids: &Vec<u64>, x: u64) -> (r: Option<usize>)
    ensures
        match r {
            Some(p) => p < ids@.len() && ids@[p as int] == x,
            None => !ids@.contains(x),
        },
{
    let mut i: usize = 0;
    while i < ids.len()
        invariant
            i <= ids@.len(),
            forall|j: int| 0 <= j < i ==> ids@[j] != x,
        decreases ids@.len() - i,
    {
        if ids[i] == x {
            return Some(i);
        }
        i = i + 1;
    }
    None
}

/// Whether `l` is the label of some node: its id truncated to 32 bits.
pub open spec fn is_node_label(g: Graph, l: u32) -> bool {
    exists|k: int| 0 <= k < g.spec_ids().len() && l == (#[trigger] g.spec_ids()[k]) as u32
}

/// The position of `x` in `ids`.
pub open spec fn position_in(ids: Seq<u64>, x: u64) -> int {
    choose|p: int| 0 <= p < ids.len() && ids[p] == x
}

/// The labels of the neighbours `nb` that are among `ids`, in order.
pub open spec fn neighbour_labels(ids: Seq<u64>, lab: Seq<u32>, nb: Seq<u64>) -> Seq<u32>
    decreases nb.len(),
{
    if nb.len() == 0 {
        Seq::empty()
    } else {
        let rest = neighbour_labels(ids, lab, nb.drop_last());
        if ids.contains(nb.last()) {
            rest.push(lab[position_in(ids, nb.last())])
        } else {
            rest
        }
    }
}

/// Node `j` takes the most frequent label among its neighbours, if it has any.
pub open spec fn relabel(g: Graph, ids: Seq<u64>, lab: Seq<u32>, j: int) -> Seq<u32> {
    let ls = neighbour_labels(ids, lab, g.nbrs(ids[j]));
    if ls.len() > 0 {
        lab.update(j, most_frequent_of(ls))
    } else {
        lab
    }
}

/// The labels after relabelling nodes `0..j` in order, each seeing the
/// labels its predecessors in the pass already took.
pub open spec fn pass_upto(g: Graph, ids: Seq<u64>, lab: Seq<u32>, j: nat) -> Seq<u32>
    decreases j,
{
    if j == 0 {
        lab
    } else {
        relabel(g, ids, pass_upto(g, ids, lab, (j - 1) as nat), j - 1)
    }
}

/// The labels after `rounds` full passes starting from `lab`.
pub open spec fn after_passes(g: Graph, ids: Seq<u64>, lab: Seq<u32>, rounds: nat) -> Seq<u32>
    decreases rounds,
{
    if rounds == 0 {
        lab
    } else {
        pass_upto(g, ids, after_passes(g, ids, lab, (rounds - 1) as nat), ids.len())
    }
}

/// The labels label propagation gives after `rounds` passes: each node
/// starts with its id truncated to 32 bits.
pub open spec fn propagated(g: Graph, rounds: nat) -> Seq<u32> {
    after_passes(g, g.spec_ids(), g.spec_ids().map_values(|x: u64| x as u32), rounds)
}

/// Relabelling node `j` changes only its label; a node whose neighbours
/// carry labels takes one of them that no other neighbour label outnumbers,
/// the first such in neighbour order, and a node without labelled
/// neighbours keeps its label.
pub proof fn law_relabel(g: Graph, ids: Seq<u64>, lab: Seq<u32>, j: int)
    requires
        0 <= j < lab.len(),
    ensures
        ({
            let ls = neighbour_labels(ids, lab, g.nbrs(ids[j]));
            let r = relabel(g, ids, lab, j);
            &&& r.len() == lab.len()
            &&& forall|q: int| 0 <= q < lab.len() && q != j ==> r[q] == lab[q]
            &&& ls.len() == 0 ==> r[j] == lab[j]
            &&& ls.len() > 0 ==> {
                &&& ls.contains(r[j])
                &&& forall|l: u32| #[trigger] ls.contains(l) ==> occurrences(ls, l) <= occurrences(ls, r[j])
                &&& exists|k: int| 0 <= k < ls.len() && ls[k] == r[j]
                    && forall|m: int| 0 <= m < k ==> occurrences(ls, #[trigger] ls[m]) < occurrences(ls, r[j])
            }
        }),
{
    let ls = neighbour_labels(ids, lab, g.nbrs(ids[j]));
    if ls.len() > 0 {
        law_most_frequent(ls);
    }
}

impl GraphAnalytics {
    /// Label propagation: every node starts with its id (truncated to 32
    /// bits) as label; in each of `rounds` passes over the nodes in order, a
    /// node with neighbours takes a most frequent label among them (see
    /// [`most_frequent`]). Returns `(node, label)` in node order.
    pub fn propagate_labels(g: &Graph, rounds: u32) -> (r: Vec<(u64, u32)>)
        ensures
            r@.len() == g.spec_ids().len(),
            forall|j: int| 0 <= j < r@.len() ==> {
                &&& (#[trigger] r@[j]).0 == g.spec_ids()[j]
                &&& r@[j].1 == propagated(*g, rounds as nat)[j]
                &&& is_node_label(*g, r@[j].1)
                &&& g.nbrs(g.spec_ids()[j]).len() == 0 ==> r@[j].1 == g.spec_ids()[j] as u32
            },
    {
        let ids = g.node_ids();
        let n = ids.len();
        let ghost gs = *g;
        let mut lab: Vec<u32> = Vec::new();
        let mut t: usize = 0;
        while t < n
            invariant
                ids@ == gs.spec_ids(),
                n == ids@.len(),
                t <= n,
                lab@.len() == t,
                forall|j: int| 0 <= j < t ==> lab@[j] == ids@[j] as u32,
            decreases n - t,
        {
            lab.push(ids[t] as u32);
            t = t + 1;
        }
        let ghost init = ids@.map_values(|x: u64| x as u32);
        assert(lab@ =~= init);
        let mut round: u32 = 0;
        while round < rounds
            invariant
                gs == *g,
                ids@ == gs.spec_ids(),
                ids@.no_duplicates(),
                init == ids@.map_values(|x: u64| x as u32),
                round <= rounds,
                lab@ == after_passes(gs, ids@, init, round as nat),
                n == ids@.len(),
                lab@.len() == n,
                forall|j: int| 0 <= j < n ==> is_node_label(gs, #[trigger] lab@[j]),
                forall|j: int| 0 <= j < n && gs.nbrs(ids@[j]).len() == 0 ==> lab@[j] == ids@[j] as u32,
            decreases rounds - round,
        {
            let ghost start = lab@;
            let mut j: usize = 0;
            while j < n
                invariant
                    gs == *g,
                    ids@ == gs.spec_ids(),
                    ids@.no_duplicates(),
                    lab@ == pass_upto(gs, ids@, start, j as nat),
                    n == ids@.len(),
                    j <= n,
                    lab@.len() == n,
                    forall|q: int| 0 <= q < n ==> is_node_label(gs, #[trigger] lab@[q]),
                    forall|q: int| 0 <= q < n && gs.nbrs(ids@[q]).len() == 0 ==> lab@[q] == ids@[q] as u32,
                decreases n - j,
            {
                let nb = g.neighbors(ids[j]);
                let ghost before = lab@;
                if nb.len() > 0 {
                    let mut ls: Vec<u32> = Vec::new();
                    let mut k: usize = 0;
                    while k < nb.len()
                        invariant
                            ids@ == gs.spec_ids(),
                            ids@.no_duplicates(),
                            n == ids@.len(),
                            lab@.len() == n,
                            lab@ == before,
                            k <= nb@.len(),
                            ls@ == neighbour_labels(ids@, before, nb@.take(k as int)),
                            forall|q: int| 0 <= q < n ==> is_node_label(gs, #[trigger] lab@[q]),
                            forall|q: int| 0 <= q < ls@.len() ==> is_node_label(gs, #[trigger] ls@[q]),
                        decreases nb@.len() - k,
                    {
                        proof {
                            assert(nb@.take(k + 1).drop_last() =~= nb@.take(k as int));
                            assert(nb@.take(k + 1).last() == nb@[k as int]);
                        }
                        match position_of(&ids, nb[k]) {
                            Some(p) => {
                                proof {
                                    let c = position_in(ids@, nb@[k as int]);
                                    assert(ids@.contains(nb@[k as int]));
                                    assert(ids@[c] == ids@[p as int]);
                                }
                                ls.push(lab[p]);
                            },
                            None => {},
                        }
                        k = k + 1;
                    }
                    proof {
                        assert(nb@.take(nb@.len() as int) =~= nb@);
                    }
                    if ls.len() > 0 {
                        let best = most_frequent(ls.as_slice());
                        proof {
                            let q = choose|q: int| 0 <= q < ls@.len() && ls@[q] == best;
                            assert(is_node_label(gs, ls@[q]));
                        }
                        lab.set(j, best);
                    }
                } else {
                    proof {
                        assert(neighbour_labels(ids@, before, nb@).len() == 0);
                    }
                }
                j = j + 1;
            }
            round = round + 1;
        }
        let ghost fin = lab@;
        assert(fin == propagated(gs, rounds as nat));
        let mut out: Vec<(u64, u32)> = Vec::new();
        let mut q: usize = 0;
        while q < n
            invariant
                ids@ == gs.spec_ids(),
                n == ids@.len(),
                q <= n,
                lab@.len() == n,
                forall|j: int| 0 <= j < n ==> is_node_label(gs, #[trigger] lab@[j]),
                forall|j: int| 0 <= j < n && gs.nbrs(ids@[j]).len() == 0 ==> lab@[j] == ids@[j] as u32,
                out@.len() == q,
                lab@ == propagated(gs, rounds as nat),
                forall|j: int| 0 <= j < q ==> {
                    &&& (#[trigger] out@[j]).0 == ids@[j]
                    &&& out@[j].1 == propagated(gs, rounds as nat)[j]
                    &&& is_node_label(gs, out@[j].1)
                    &&& gs.nbrs(ids@[j]).len() == 0 ==> out@[j].1 == ids@[j] as u32
                },
            decreases n - q,
        {
            out.push((ids[q], lab[q]));
            q = q + 1;
        }
        out
    }

    /// Louvain-style community detection in its simple form: ten passes of
    /// moving each node to the community most common among its neighbours.
    pub fn louvain(g: &Graph) -> (r: Result<Vec<(u64, u32)>, String>)
        ensures
            r matches Ok(v) && v@.len() == g.spec_ids().len()
                && forall|j: int| 0 <= j < v@.len() ==> {
                    &&& (#[trigger] v@[j]).0 == g.spec_ids()[j]
                    &&& v@[j].1 == propagated(*g, 10)[j]
                    &&& is_node_label(*g, v@[j].1)
                    &&& g.nbrs(g.spec_ids()[j]).len() == 0 ==> v@[j].1 == g.spec_ids()[j] as u32
                },
    {
        Ok(Self::propagate_labels(g, 10))
    }

    /// Label propagation with twenty passes.
    pub fn label_propagation(g: &Graph) -> (r: Result<Vec<(u64, u32)>, String>)
        ensures
            r matches Ok(v) && v@.len() == g.spec_ids().len()
                && forall|j: int| 0 <= j < v@.len() ==> {
                    &&& (#[trigger] v@[j]).0 == g.spec_ids()[j]
                    &&& v@[j].1 == propagated(*g, 20)[j]
                    &&& is_node_label(*g, v@[j].1)
                    &&& g.nbrs(g.spec_ids()[j]).len() == 0 ==> v@[j].1 == g.spec_ids()[j] as u32
                },
    {
        Ok(Self::propagate_labels(g, 20))
    }

    /// Communities by the chosen algorithm.
    pub fn community_detection(g: &Graph, algorithm: CommunityAlgorithm) -> (r: Result<Vec<(u64, u32)>, String>)
        requires
            g.spec_ids().len() < u32::MAX,
        ensures
            r matches Ok(v) && v@.len() == g.spec_ids().len()
                && forall|j: int| 0 <= j < v@.len() ==> (#[trigger] v@[j]).0 == g.spec_ids()[j],
            algorithm == CommunityAlgorithm::ConnectedComponents ==> (r matches Ok(v)
                && forall|j: int| 0 <= j < v@.len() ==> in_component(*g, j, (#[trigger] v@[j]).1 as nat)),
            algorithm == CommunityAlgorithm::Louvain ==> (r matches Ok(v)
                && forall|j: int| 0 <= j < v@.len() ==> (#[trigger] v@[j]).1 == propagated(*g, 10)[j]),
            algorithm == CommunityAlgorithm::LabelPropagation ==> (r matches Ok(v)
                && forall|j: int| 0 <= j < v@.len() ==> (#[trigger] v@[j]).1 == propagated(*g, 20)[j]),
            algorithm != CommunityAlgorithm::ConnectedComponents ==> (r matches Ok(v)
                && forall|j: int| 0 <= j < v@.len() ==> {
                    &&& is_node_label(*g, (#[trigger] v@[j]).1)
                    &&& g.nbrs(g.spec_ids()[j]).len() == 0 ==> v@[j].1 == g.spec_ids()[j] as u32
                }),
    {
        match algorithm {
            CommunityAlgorithm::Louvain => Self::louvain(g),
            CommunityAlgorithm::LabelPropagation => Self::label_propagation(g),
            CommunityAlgorithm::ConnectedComponents => Self::connected_components(g),
        }
    }
}

/// A walk the path search takes from `start` to `end`: it starts at
/// `start` and ends at `end`, each step goes to a neighbour, the nodes after
/// the first are distinct, and `end` is reached only at the last node.
pub open spec fn search_walk(g: Graph, start: u64, end: u64, w: Seq<u64>) -> bool {
    &&& w.len() >= 1
    &&& w[0] == start
    &&& w.last() == end
    &&& forall|i: int| #![trigger w[i]] 0 < i < w.len() ==> g.nbrs(w[i - 1]).contains(w[i])
    &&& forall|i: int, j: int| 1 <= i < j < w.len() ==> w[i] != w[j]
    &&& forall|i: int| 0 <= i < w.len() - 1 ==> w[i] != end
}

/// A search walk that no search walk is shorter than.
pub open spec fn shortest_walk(g: Graph, start: u64, end: u64, w: Seq<u64>) -> bool {
    &&& search_walk(g, start, end, w)
    &&& forall|v: Seq<u64>| #[trigger] search_walk(g, start, end, v) ==> w.len() <= v.len()
}

/// A prefix of a search walk from `p[0]` that has not reached `end` before
/// its last node.
pub open spec fn partial_walk(g: Graph, end: u64, p: Seq<u64>) -> bool {
    &&& p.len() >= 1
    &&& forall|i: int| #![trigger p[i]] 0 < i < p.len() ==> g.nbrs(p[i - 1]).contains(p[i])
    &&& forall|i: int, j: int| 1 <= i < j < p.len() ==> p[i] != p[j]
    &&& forall|i: int| 0 <= i < p.len() - 1 ==> p[i] != end
}

/// The walks as abstract values.
pub open spec fn walks_view(ws: Seq<Vec<u64>>) -> Seq<Seq<u64>> {
    ws.map_values(|w: Vec<u64>| w@)
}

/// Distinct nodes are no more than the graph has.
proof fn lemma_distinct_nodes_bound(g: Graph, s: Seq<u64>)
    requires
        s.no_duplicates(),
        forall|i: int| 0 <= i < s.len() ==> g.has_node(#[trigger] s[i]),
    ensures
        s.len() <= g.spec_ids().len(),
{
    broadcast use vstd::seq_lib::seq_to_set_is_finite;

    s.unique_seq_to_set();
    g.spec_ids().lemma_cardinality_of_set();
    assert(s.to_set().subset_of(g.spec_ids().to_set())) by {
        assert forall|x: u64| s.to_set().contains(x) implies g.spec_ids().to_set().contains(x) by {
            let i = choose|i: int| 0 <= i < s.len() && s[i] == x;
            assert(g.has_node(s[i]));
        }
    }
    vstd::set_lib::lemma_len_subset(s.to_set(), g.spec_ids().to_set());
}

/// A prefix of a search walk is no longer than the graph's nodes and one.
proof fn lemma_partial_walk_bound(g: Graph, end: u64, p: Seq<u64>)
    requires
        partial_walk(g, end, p),
    ensures
        p.len() <= g.spec_ids().len() + 1,
{
    let s = p.skip(1);
    assert forall|i: int| 0 <= i < s.len() implies g.has_node(#[trigger] s[i]) by {
        assert(s[i] == p[i + 1]);
        lemma_nbrs_are_nodes(g, p[i], p[i + 1]);
    }
    assert(s.no_duplicates()) by {
        assert forall|i: int, j: int| 0 <= i < s.len() && 0 <= j < s.len() && i != j implies s[i] != s[j] by {
            if i < j {
                assert(p[i + 1] != p[j + 1]);
            } else {
                assert(p[j + 1] != p[i + 1]);
            }
        }
    }
    lemma_distinct_nodes_bound(g, s);
}

/// Whether `x` is among the nodes of `path` after the first.
fn in_tail(path: &Vec<u64>, x: u64) -> (b: bool)
    ensures
        b == exists|i: int| 1 <= i < path@.len() && path@[i] == x,
{
    let mut i: usize = 1;
    while i < path.len()
        invariant
            1 <= i,
            forall|j: int| 1 <= j < i && j < path@.len() ==> path@[j] != x,
        decreases path@.len() - i,
    {
        if path[i] == x {
            return true;
        }
        i = i + 1;
    }
    false
}

/// Collects, after what `out` holds, every search walk that extends
/// `path`, in depth-first order.
fn dfs_paths(g: &Graph, end: u64, path: &mut Vec<u64>, out: &mut Vec<Vec<u64>>)
    requires
        partial_walk(*g, end, old(path)@),
    ensures
        final(path)@ == old(path)@,
        final(out)@.len() >= old(out)@.len(),
        final(out)@.take(old(out)@.len() as int) == old(out)@,
        forall|q: Seq<u64>| #[trigger] walks_view(final(out)@.skip(old(out)@.len() as int)).contains(q)
            <==> (search_walk(*g, old(path)@[0], end, q) && old(path)@.is_prefix_of(q)),
    decreases g.spec_ids().len() + 1 - old(path)@.len(),
{
    proof {
        lemma_partial_walk_bound(*g, end, path@);
    }
    let ghost p = path@;
    let ghost start = p[0];
    let ghost o0 = out@;
    let current = path[path.len() - 1];
    if current == end {
        let w = path.clone();
        assert(w@ =~= p);
        out.push(w);
        proof {
            assert(out@.take(o0.len() as int) =~= o0);
            assert(walks_view(out@.skip(o0.len() as int)) =~= seq![p]);
            assert forall|q: Seq<u64>| #[trigger] walks_view(out@.skip(o0.len() as int)).contains(q)
                <==> (search_walk(*g, start, end, q) && p.is_prefix_of(q)) by {
                if walks_view(out@.skip(o0.len() as int)).contains(q) {
                    assert(walks_view(out@.skip(o0.len() as int))[0] == p);
                    assert(q == p);
                    assert(p.is_prefix_of(q)) by {
                        assert(q.subrange(0, p.len() as int) =~= p);
                    }
                }
                if search_walk(*g, start, end, q) && p.is_prefix_of(q) {
                    if q.len() > p.len() {
                        assert(q[p.len() - 1] == p[p.len() - 1]);
                        assert(q[p.len() - 1] != end);
                    }
                    assert(q =~= p);
                    assert(walks_view(out@.skip(o0.len() as int))[0] == q);
                }
            }
        }
        return;
    }
    let nb = g.neighbors(current);
    let mut j: usize = 0;
    while j < nb.len()
        invariant
            j <= nb@.len(),
            nb@ == g.nbrs(current),
            p.len() >= 1,
            current == p[p.len() - 1],
            current != end,
            start == p[0],
            partial_walk(*g, end, p),
            p.len() <= g.spec_ids().len() + 1,
            p == old(path)@,
            path@ == p,
            out@.len() >= o0.len(),
            out@.take(o0.len() as int) == o0,
            forall|q: Seq<u64>| #[trigger] walks_view(out@.skip(o0.len() as int)).contains(q)
                <==> (search_walk(*g, start, end, q) && p.is_prefix_of(q) && q.len() > p.len()
                    && nb@.take(j as int).contains(q[p.len() as int])),
        decreases nb@.len() - j,
    {
        let n = nb[j];
        let ghost o1 = out@;
        if !in_tail(path, n) {
            path.push(n);
            proof {
                let p2 = path@;
                assert(p2 == p.push(n));
                assert forall|i: int| #![trigger p2[i]] 0 < i < p2.len() implies g.nbrs(p2[i - 1]).contains(p2[i]) by {
                    if i == p.len() {
                        assert(nb@[j as int] == n);
                    } else {
                        assert(p2[i] == p[i] && p2[i - 1] == p[i - 1]);
                    }
                }
                assert forall|a: int, b: int| 1 <= a < b < p2.len() implies p2[a] != p2[b] by {
                    if b == p.len() {
                        assert(p2[a] == p[a]);
                    } else {
                        assert(p2[a] == p[a] && p2[b] == p[b]);
                    }
                }
                assert forall|i: int| 0 <= i < p2.len() - 1 implies p2[i] != end by {
                    assert(p2[i] == p[i]);
                }
                assert(partial_walk(*g, end, p2));
                lemma_partial_walk_bound(*g, end, p2);
            }
            dfs_paths(g, end, path, out);
            path.pop();
            proof {
                assert(path@ =~= p);
                let p2 = p.push(n);
                let before = walks_view(o1.skip(o0.len() as int));
                let added = walks_view(out@.skip(o1.len() as int));
                assert(out@.take(o0.len() as int) =~= o0) by {
                    assert(out@.take(o1.len() as int) == o1);
                    assert(out@.take(o0.len() as int) =~= o1.take(o0.len() as int));
                }
                assert(walks_view(out@.skip(o0.len() as int)) =~= before + added) by {
                    assert(out@.skip(o0.len() as int) =~= o1.skip(o0.len() as int) + out@.skip(o1.len() as int)) by {
                        assert(out@.take(o1.len() as int) == o1);
                    }
                }
                assert forall|q: Seq<u64>| #[trigger] walks_view(out@.skip(o0.len() as int)).contains(q)
                    <==> (search_walk(*g, start, end, q) && p.is_prefix_of(q) && q.len() > p.len()
                        && nb@.take(j + 1).contains(q[p.len() as int])) by {
                    let all = walks_view(out@.skip(o0.len() as int));
                    assert(nb@.take(j + 1) =~= nb@.take(j as int).push(n));
                    if all.contains(q) {
                        let k = choose|k: int| 0 <= k < all.len() && all[k] == q;
                        if k < before.len() {
                            assert(before[k] == q);
                            assert(before.contains(q));
                        } else {
                            assert(added[k - before.len()] == q);
                            assert(added.contains(q));
                            assert(p2.is_prefix_of(q));
                            assert(q[p.len() as int] == p2[p.len() as int]);
                            assert(p.is_prefix_of(q)) by {
                                assert(q.subrange(0, p.len() as int) =~= p2.subrange(0, p.len() as int));
                            }
                            assert(nb@.take(j + 1)[j as int] == n);
                        }
                    }
                    if search_walk(*g, start, end, q) && p.is_prefix_of(q) && q.len() > p.len()
                        && nb@.take(j + 1).contains(q[p.len() as int]) {
                        if nb@.take(j as int).contains(q[p.len() as int]) {
                            assert(before.contains(q));
                            let k = choose|k: int| 0 <= k < before.len() && before[k] == q;
                            assert(all[k] == q);
                        } else {
                            assert(q[p.len() as int] == n);
                            assert(p2.is_prefix_of(q)) by {
                                assert(q.subrange(0, p2.len() as int) =~= p2);
                            }
                            assert(added.contains(q));
                            let k = choose|k: int| 0 <= k < added.len() && added[k] == q;
                            assert(all[before.len() + k] == q);
                        }
                    }
                }
            }
        } else {
            proof {
                let i0 = choose|i: int| 1 <= i < p.len() && p[i] == n;
                assert forall|q: Seq<u64>| #[trigger] walks_view(out@.skip(o0.len() as int)).contains(q)
                    <==> (search_walk(*g, start, end, q) && p.is_prefix_of(q) && q.len() > p.len()
                        && nb@.take(j + 1).contains(q[p.len() as int])) by {
                    assert(nb@.take(j + 1) =~= nb@.take(j as int).push(n));
                    if search_walk(*g, start, end, q) && p.is_prefix_of(q) && q.len() > p.len()
                        && q[p.len() as int] == n {
                        assert(q[i0] == p[i0]);
                        assert(q[i0] != q[p.len() as int]);
                    }
                }
            }
        }
        j = j + 1;
    }
    proof {
        assert(nb@.take(nb@.len() as int) =~= nb@);
        assert forall|q: Seq<u64>| #[trigger] walks_view(out@.skip(o0.len() as int)).contains(q)
            <==> (search_walk(*g, start, end, q) && p.is_prefix_of(q)) by {
            if search_walk(*g, start, end, q) && p.is_prefix_of(q) {
                if q.len() == p.len() {
                    assert(q =~= p);
                }
                assert(q.len() > p.len());
                assert(q[p.len() - 1] == current);
                assert(g.nbrs(q[p.len() - 1]).contains(q[p.len() as int]));
            }
        }
    }
}

impl GraphAnalytics {
    /// All shortest walks from `start` to `end` that the depth-first path
    /// search finds (see [`shortest_walk`]); none where `end` cannot be
    /// reached. Their order, and how often a walk appears where a node has
    /// parallel edges, is left open.
    pub fn find_all_shortest_paths(g: &Graph, start: u64, end: u64) -> (r: Result<Vec<Vec<u64>>, String>)
        ensures
            r matches Ok(ps) && forall|q: Seq<u64>| #[trigger] walks_view(ps@).contains(q)
                <==> shortest_walk(*g, start, end, q),
    {
        let mut path: Vec<u64> = Vec::new();
        path.push(start);
        let mut all: Vec<Vec<u64>> = Vec::new();
        proof {
            assert(partial_walk(*g, end, path@));
        }
        dfs_paths(g, end, &mut path, &mut all);
        let ghost ws = walks_view(all@);
        proof {
            assert(all@.skip(0) =~= all@);
            assert forall|q: Seq<u64>| #[trigger] ws.contains(q) <==> search_walk(*g, start, end, q) by {
                if search_walk(*g, start, end, q) {
                    assert(seq![start].is_prefix_of(q)) by {
                        assert(q.subrange(0, 1) =~= seq![start]);
                    }
                }
            }
        }
        if all.len() == 0 {
            proof {
                assert forall|q: Seq<u64>| #[trigger] walks_view(all@).contains(q) <==> shortest_walk(*g, start, end, q) by {
                    if shortest_walk(*g, start, end, q) {
                        assert(ws.contains(q));
                    }
                }
            }
            return Ok(all);
        }
        // the least length
        let mut min = all[0].len();
        let mut i: usize = 1;
        while i < all.len()
            invariant
                1 <= i <= all@.len(),
                exists|k: int| 0 <= k < i && all@[k]@.len() == min,
                forall|k: int| 0 <= k < i ==> min <= all@[k]@.len(),
            decreases all@.len() - i,
        {
            if all[i].len() < min {
                min = all[i].len();
            }
            i = i + 1;
        }
        let mut kept: Vec<Vec<u64>> = Vec::new();
        let mut i: usize = 0;
        while i < all.len()
            invariant
                i <= all@.len(),
                ws == walks_view(all@),
                forall|q: Seq<u64>| #[trigger] walks_view(kept@).contains(q)
                    <==> (walks_view(all@.take(i as int)).contains(q) && q.len() == min),
            decreases all@.len() - i,
        {
            let ghost kv = walks_view(kept@);
            let keep = all[i].len() == min;
            if keep {
                let w = all[i].clone();
                assert(w@ =~= all@[i as int]@);
                kept.push(w);
                proof {
                    assert(walks_view(kept@) =~= kv.push(all@[i as int]@));
                }
            } else {
                assert(walks_view(kept@) == kv);
            }
            proof {
                let t = walks_view(all@.take(i as int));
                let x = all@[i as int]@;
                assert(walks_view(all@.take(i + 1)) =~= t.push(x));
                assert(keep == (x.len() == min));
                assert forall|q: Seq<u64>| #[trigger] walks_view(kept@).contains(q)
                    <==> (walks_view(all@.take(i + 1)).contains(q) && q.len() == min) by {
                    if walks_view(all@.take(i + 1)).contains(q) && q.len() == min {
                        let k = choose|k: int| 0 <= k < t.len() + 1 && t.push(x)[k] == q;
                        if k < t.len() {
                            assert(t[k] == q);
                            assert(t.contains(q));
                            assert(kv.contains(q));
                            let m = choose|m: int| 0 <= m < kv.len() && kv[m] == q;
                            assert(walks_view(kept@)[m] == q);
                        } else {
                            assert(q == x);
                            assert(walks_view(kept@)[kv.len() as int] == q);
                        }
                    }
                    if walks_view(kept@).contains(q) {
                        let k = choose|k: int| 0 <= k < walks_view(kept@).len() && walks_view(kept@)[k] == q;
                        if k < kv.len() {
                            assert(kv[k] == q);
                            assert(kv.contains(q));
                            let m = choose|m: int| 0 <= m < t.len() && t[m] == q;
                            assert(t.push(x)[m] == q);
                        } else {
                            assert(q == x);
                            assert(t.push(x)[t.len() as int] == q);
                        }
                    }
                }
            }
            i = i + 1;
        }
        proof {
            assert(all@.take(all@.len() as int) =~= all@);
            assert forall|q: Seq<u64>| #[trigger] walks_view(kept@).contains(q) <==> shortest_walk(*g, start, end, q) by {
                if walks_view(kept@).contains(q) {
                    assert(ws.contains(q));
                    assert forall|v: Seq<u64>| #[trigger] search_walk(*g, start, end, v) implies q.len() <= v.len() by {
                        assert(ws.contains(v));
                        let k = choose|k: int| 0 <= k < ws.len() && ws[k] == v;
                        assert(min <= all@[k]@.len());
                    }
                }
                if shortest_walk(*g, start, end, q) {
                    assert(ws.contains(q));
                    let k = choose|k: int| 0 <= k < all@.len() && all@[k]@.len() == min;
                    assert(ws[k] == all@[k]@);
                    assert(ws.contains(ws[k]));
                    assert(search_walk(*g, start, end, ws[k]));
                    let m = choose|m: int| 0 <= m < ws.len() && ws[m] == q;
                    assert(min <= all@[m]@.len());
                }
            }
        }
        Ok(kept)
    }
}

} // verus!
