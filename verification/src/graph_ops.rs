//! Graph operations of query execution: relationship checks and the
//! bidirectional breadth-first search behind `CONNECTEDTO ... WITHIN`.

use vstd::prelude::*;
use crate::graph::{Edge, Graph, Node, has_relation, vec_contains};
use crate::idmap::IdMap;
use crate::magic_traversal::dedup;

verus! {

/// Graph operations.
pub struct GraphOperations;

impl GraphOperations {
    /// Whether `node` has an outgoing edge of type `rel_type`.
    pub fn has_relationship_of_type(node: &Node, rel_type: &str) -> (b: bool)
        ensures
            b == has_relation(node.edges@, rel_type@),
    {
        let rs = rel_type.to_string();
        proof {
            vstd::string::to_string_from_display_ensures_for_str(rel_type, rs);
        }
        let mut i: usize = 0;
        while i < node.edges.len()
            invariant
                i <= node.edges@.len(),
                rs@ == rel_type@,
                forall|j: int| 0 <= j < i ==> node.edges@[j].relation_type@ != rel_type@,
            decreases node.edges@.len() - i,
        {
            if node.edges[i].relation_type == rs {
                return true;
            }
            i = i + 1;
        }
        false
    }
}

/// Every neighbour is a node.
pub proof fn lemma_nbrs_are_nodes(g: Graph, u: u64, x: u64)
    requires
        g.nbrs(u).contains(x),
    ensures
        g.has_node(x),
{
    let nb = g.nbrs(u);
    let i = choose|i: int| 0 <= i < nb.len() && nb[i] == x;
    let pred = |t: u64| g.has_node(t);
    g.spec_edges(u).map_values(|e: Edge| e.target_id).lemma_filter_pred(pred, i);
}

/// The remaining potential of a node in a depth map: its depth, or `cap`
/// when it has none.
pub open spec fn pot(m: Map<u64, u32>, x: u64, cap: nat) -> nat {
    if m.contains_key(x) { m[x] as nat } else { cap }
}

/// The potentials of the nodes `ids`, summed.
pub open spec fn pot_sum(ids: Seq<u64>, m: Map<u64, u32>, cap: nat) -> nat
    decreases ids.len(),
{
    if ids.len() == 0 {
        0
    } else {
        pot_sum(ids.drop_last(), m, cap) + pot(m, ids.last(), cap)
    }
}

proof fn lemma_pot_sum_frame(ids: Seq<u64>, m1: Map<u64, u32>, m2: Map<u64, u32>, cap: nat)
    requires
        forall|i: int| 0 <= i < ids.len() ==> pot(m1, #[trigger] ids[i], cap) == pot(m2, ids[i], cap),
    ensures
        pot_sum(ids, m1, cap) == pot_sum(ids, m2, cap),
    decreases ids.len(),
{
    if ids.len() > 0 {
        assert forall|i: int| 0 <= i < ids.drop_last().len() implies
            pot(m1, #[trigger] ids.drop_last()[i], cap) == pot(m2, ids.drop_last()[i], cap) by {
            assert(ids.drop_last()[i] == ids[i]);
        }
        lemma_pot_sum_frame(ids.drop_last(), m1, m2, cap);
        assert(pot(m1, ids[ids.len() - 1], cap) == pot(m2, ids[ids.len() - 1], cap));
    }
}

/// Lowering the depth of one node of `ids` lowers the sum by the difference.
proof fn lemma_pot_sum_lower(ids: Seq<u64>, m: Map<u64, u32>, x: u64, v: u32, cap: nat)
    requires
        ids.no_duplicates(),
        ids.contains(x),
        (v as nat) < pot(m, x, cap),
    ensures
        pot_sum(ids, m.insert(x, v), cap) + (pot(m, x, cap) - v) == pot_sum(ids, m, cap),
    decreases ids.len(),
{
    let m2 = m.insert(x, v);
    let pre = ids.drop_last();
    if ids.last() == x {
        assert forall|i: int| 0 <= i < pre.len() implies pot(m2, #[trigger] pre[i], cap) == pot(m, pre[i], cap) by {
            assert(pre[i] == ids[i]);
            assert(ids[i] != ids[ids.len() - 1]);
        }
        lemma_pot_sum_frame(pre, m2, m, cap);
    } else {
        let j = choose|j: int| 0 <= j < ids.len() && ids[j] == x;
        assert(pre[j] == x);
        assert(pre.no_duplicates()) by {
            assert forall|a: int, b: int| 0 <= a < b < pre.len() implies pre[a] != pre[b] by {
                assert(pre[a] == ids[a] && pre[b] == ids[b]);
            }
        }
        lemma_pot_sum_lower(pre, m, x, v, cap);
    }
}

/// Whether node `n` has an edge of type `rel`.
pub open spec fn typed(g: Graph, n: u64, rel: Seq<char>) -> bool {
    has_relation(g.spec_edges(n), rel)
}

/// Whether node `n` has an outgoing edge of type `rel` (false for a non-node).
fn node_has_relation(g: &Graph, n: u64, rel: &String) -> (b: bool)
    ensures
        b == typed(*g, n, rel@),
{
    match g.get_edges(n) {
        None => {
            proof {
                g.lemma_non_node_edges(n);
            }
            false
        },
        Some(edges) => {
            let mut i: usize = 0;
            while i < edges.len()
                invariant
                    i <= edges@.len(),
                    edges@ == g.spec_edges(n),
                    forall|j: int| 0 <= j < i ==> edges@[j].relation_type@ != rel@,
                decreases edges@.len() - i,
            {
                if edges[i].relation_type.eq(rel) {
                    proof {
                        assert(edges@[i as int].relation_type@ == rel@);
                    }
                    return true;
                }
                i = i + 1;
            }
            false
        },
    }
}

/// What a meeting point is: a node of type-`rel` edges that is a neighbour
/// of some node.
pub open spec fn meeting_point(g: Graph, x: u64, rel: Seq<char>) -> bool {
    &&& g.has_node(x)
    &&& typed(g, x, rel)
    &&& exists|u: u64| #[trigger] g.nbrs(u).contains(x)
}

/// `x` is met within `min..=max` hops: it ends a typed walk of `k` edges
/// from `starts`, where `k` (met by the forward search) or `k + 1` (met by a
/// backward step from a node at forward depth `k`) lies between `min` and `max`.
pub open spec fn met_in_range(g: Graph, starts: Seq<u64>, rel: Seq<char>, x: u64, min: u32, max: u32) -> bool {
    exists|k: nat| #[trigger] typed_walk(g, starts, rel, x, k) && ((min <= k <= max) || (min <= k + 1 <= max))
}

/// Whether `x` is reached from a node of `starts` by a walk of `k` edges
/// whose every node after the first has an edge of type `rel`.
pub open spec fn typed_walk(g: Graph, starts: Seq<u64>, rel: Seq<char>, x: u64, k: nat) -> bool
    decreases k,
{
    if k == 0 {
        starts.contains(x)
    } else {
        &&& typed(g, x, rel)
        &&& exists|u: u64| #[trigger] g.nbrs(u).contains(x) && typed_walk(g, starts, rel, u, (k - 1) as nat)
    }
}

/// `k` is the fewest edges of such a walk from `starts` to `x`.
pub open spec fn typed_distance(g: Graph, starts: Seq<u64>, rel: Seq<char>, x: u64, k: nat) -> bool {
    &&& typed_walk(g, starts, rel, x, k)
    &&& forall|j: nat| j < k ==> !#[trigger] typed_walk(g, starts, rel, x, j)
}

/// The forward search state: each queue entry is the end of a typed walk of
/// its depth, each recorded depth has a queue entry, and the start nodes are
/// recorded at depth 0.
spec fn forward_sound(g: Graph, starts: Seq<u64>, rel: Seq<char>, fq: Seq<(u64, u32)>, fv: Map<u64, u32>) -> bool {
    &&& forall|j: int| 0 <= j < fq.len() ==> typed_walk(g, starts, rel, (#[trigger] fq[j]).0, fq[j].1 as nat)
    &&& forall|x: u64| #[trigger] fv.contains_key(x) ==> exists|j: int| 0 <= j < fq.len() && #[trigger] fq[j] == (x, fv[x])
    &&& forall|j: int| 0 <= j < starts.len() ==> fv.contains_key(#[trigger] starts[j]) && fv[starts[j]] == 0
}

/// Every typed neighbour of an expanded entry (one of the first `fh`, below
/// depth `max`) is recorded at most one level deeper.
spec fn expanded(g: Graph, rel: Seq<char>, fq: Seq<(u64, u32)>, fh: int, fv: Map<u64, u32>, max: u32) -> bool {
    forall|j: int, x: u64| 0 <= j < fh && (#[trigger] fq[j]).1 < max && #[trigger] g.nbrs(fq[j].0).contains(x) && typed(g, x, rel)
        ==> fv.contains_key(x) && fv[x] <= fq[j].1 + 1
}

/// Once every entry is expanded, every end of a typed walk of at most `max`
/// edges is recorded at a depth no greater than the walk's length.
proof fn lemma_walk_recorded(g: Graph, starts: Seq<u64>, rel: Seq<char>, fq: Seq<(u64, u32)>, fv: Map<u64, u32>, max: u32, x: u64, k: nat)
    requires
        forward_sound(g, starts, rel, fq, fv),
        expanded(g, rel, fq, fq.len() as int, fv, max),
        typed_walk(g, starts, rel, x, k),
        k <= max,
    ensures
        fv.contains_key(x),
        fv[x] <= k,
    decreases k,
{
    if k == 0 {
        let j = choose|j: int| 0 <= j < starts.len() && starts[j] == x;
        assert(fv.contains_key(starts[j]));
    } else {
        let u = choose|u: u64| #[trigger] g.nbrs(u).contains(x) && typed_walk(g, starts, rel, u, (k - 1) as nat);
        lemma_walk_recorded(g, starts, rel, fq, fv, max, u, (k - 1) as nat);
        assert(fv.contains_key(u));
        let j = choose|j: int| 0 <= j < fq.len() && #[trigger] fq[j] == (u, fv[u]);
        assert(fq[j].1 < max);
        assert(g.nbrs(fq[j].0).contains(x));
    }
}

/// A node at distance `k > 0` has an in-neighbour at distance `k - 1`.
proof fn lemma_distance_predecessor(g: Graph, starts: Seq<u64>, rel: Seq<char>, x: u64, k: nat) -> (u: u64)
    requires
        typed_distance(g, starts, rel, x, k),
        k > 0,
    ensures
        g.nbrs(u).contains(x),
        typed_distance(g, starts, rel, u, (k - 1) as nat),
{
    let u = choose|u: u64| #[trigger] g.nbrs(u).contains(x) && typed_walk(g, starts, rel, u, (k - 1) as nat);
    assert forall|j: nat| j < k - 1 implies !#[trigger] typed_walk(g, starts, rel, u, j) by {
        if typed_walk(g, starts, rel, u, j) {
            assert(typed_walk(g, starts, rel, x, j + 1));
            assert(!typed_walk(g, starts, rel, x, (j + 1) as nat));
        }
    }
    u
}

impl GraphOperations {
    /// Bidirectional breadth-first search as the engine runs it. A forward
    /// search starts at `start_nodes` (depth 0); a backward search starts at
    /// every node of the graph (depth 0). The two take turns, one queue entry
    /// each; an entry at depth `max_hops` or more is not expanded (and a
    /// forward one so expanded skips the backward turn). Expanding a node
    /// visits its neighbours that have an edge of type `rel_type`; a visited
    /// neighbour already reached by the other search, at total depth between
    /// `min_hops` and `max_hops`, is a meeting point. The distinct meeting
    /// points are returned.
    ///
    /// Every meeting point is such a neighbour. Conversely, a node with a
    /// `rel_type` edge is met whenever one of its in-neighbours lies at
    /// distance `d` from the start nodes along such typed walks, with
    /// `min_hops <= d + 1 <= max_hops`; in particular every typed node at
    /// distance `k`, `max(1, min_hops) <= k <= max_hops`, is met.
    #[verifier::rlimit(100)]
    pub fn bidirectional_bfs(g: &Graph, start_nodes: &[u64], min_hops: u32, max_hops: u32, rel_type: &str)
        -> (r: Result<Vec<u64>, String>)
        ensures
            r matches Ok(v) && {
                &&& v@.no_duplicates()
                &&& max_hops == 0 ==> v@.len() == 0
                &&& forall|x: u64| #[trigger] v@.contains(x) ==> meeting_point(*g, x, rel_type@)
                    && met_in_range(*g, start_nodes@, rel_type@, x, min_hops, max_hops)
                &&& min_hops > max_hops ==> v@.len() == 0
                &&& min_hops <= 1 <= max_hops ==> forall|s: u64, x: u64|
                    start_nodes@.contains(s) && #[trigger] g.nbrs(s).contains(x) && typed(*g, x, rel_type@)
                        ==> #[trigger] v@.contains(x)
                &&& forall|u: u64, x: u64, d: nat|
                    #![trigger typed_distance(*g, start_nodes@, rel_type@, u, d), g.nbrs(u).contains(x)]
                    typed_distance(*g, start_nodes@, rel_type@, u, d) && g.nbrs(u).contains(x)
                        && typed(*g, x, rel_type@) && min_hops <= d + 1 <= max_hops ==> v@.contains(x)
                &&& forall|x: u64, k: nat| #[trigger] typed_distance(*g, start_nodes@, rel_type@, x, k)
                    && 1 <= k && min_hops <= k <= max_hops ==> v@.contains(x)
            },
    {
        let rel = rel_type.to_string();
        proof {
            vstd::string::to_string_from_display_ensures_for_str(rel_type, rel);
            use_type_invariant(g);
            g.lemma_ids_no_dup();
        }
        let ghost gs = *g;
        let ghost cap: nat = max_hops as nat + 1;
        let mut fq: Vec<(u64, u32)> = Vec::new();
        let mut bq: Vec<(u64, u32)> = Vec::new();
        let mut fv: IdMap<u32> = IdMap::new();
        let mut bv: IdMap<u32> = IdMap::new();
        let mut k: usize = 0;
        while k < start_nodes.len()
            invariant
                k <= start_nodes@.len(),
                fq@.len() == k,
                forall|j: int| 0 <= j < k ==> (#[trigger] fq@[j]) == (start_nodes@[j], 0u32),
                forall|x: u64| #[trigger] fv.spec_map().contains_key(x) ==> fv.spec_map()[x] == 0,
                forall|j: int| 0 <= j < k ==> fv.spec_map().contains_key(#[trigger] start_nodes@[j]),
                forall|x: u64| #[trigger] fv.spec_map().contains_key(x) ==> exists|j: int| 0 <= j < k && start_nodes@[j] == x,
            decreases start_nodes@.len() - k,
        {
            fq.push((start_nodes[k], 0));
            fv.insert(start_nodes[k], 0);
            k = k + 1;
        }
        proof {
            let fvm = fv.spec_map();
            assert forall|j: int| 0 <= j < fq@.len() implies typed_walk(gs, start_nodes@, rel_type@, (#[trigger] fq@[j]).0, fq@[j].1 as nat) by {
                assert(start_nodes@[j] == fq@[j].0);
            }
            assert forall|x: u64| #[trigger] fvm.contains_key(x) implies exists|j: int| 0 <= j < fq@.len() && #[trigger] fq@[j] == (x, fvm[x]) by {
                let j = choose|j: int| 0 <= j < start_nodes@.len() && start_nodes@[j] == x;
                assert(fq@[j] == (x, fvm[x]));
            }
            assert(forward_sound(gs, start_nodes@, rel_type@, fq@, fvm));
        }
        let all = g.node_ids();
        let ghost ids = all@;
        let mut k: usize = 0;
        while k < all.len()
            invariant
                ids == all@,
                ids == gs.spec_ids(),
                k <= ids.len(),
                bq@.len() == k,
                forall|j: int| 0 <= j < k ==> (#[trigger] bq@[j]) == (ids[j], 0u32),
                forall|x: u64| bv.spec_map().contains_key(x) <==> ids.take(k as int).contains(x),
                forall|x: u64| #[trigger] bv.spec_map().contains_key(x) ==> bv.spec_map()[x] == 0,
            decreases ids.len() - k,
        {
            proof {
                assert(ids.take(k + 1) =~= ids.take(k as int).push(ids[k as int]));
                let t1 = ids.take(k + 1);
                let t0 = ids.take(k as int);
                assert forall|x: u64| t1.contains(x) <==> (t0.contains(x) || x == ids[k as int]) by {
                    if t1.contains(x) {
                        let w = choose|w: int| 0 <= w < t1.len() && #[trigger] t1[w] == x;
                        if w < k {
                            assert(t0[w] == x);
                        }
                    }
                    if t0.contains(x) {
                        let w = choose|w: int| 0 <= w < t0.len() && #[trigger] t0[w] == x;
                        assert(t1[w] == x);
                    }
                    if x == ids[k as int] {
                        assert(t1[k as int] == x);
                    }
                }
            }
            bq.push((all[k], 0));
            bv.insert(all[k], 0);
            k = k + 1;
        }
        proof {
            assert(ids.take(ids.len() as int) =~= ids);
        }
        let ghost nstart = start_nodes@.len();
        let mut meet: Vec<u64> = Vec::new();
        let mut fh: usize = 0;
        let mut bh: usize = 0;
        while fh < fq.len() || bh < bq.len()
            invariant
                gs == *g,
                ids == gs.spec_ids(),
                ids.no_duplicates(),
                cap == max_hops as nat + 1,
                rel@ == rel_type@,
                nstart == start_nodes@.len(),
                nstart <= fq@.len(),
                forall|j: int| 0 <= j < nstart ==> (#[trigger] fq@[j]) == (start_nodes@[j], 0u32),
                fh <= fq@.len(),
                bh <= bq@.len(),
                bq@.len() == ids.len(),
                forall|j: int| 0 <= j < bq@.len() ==> (#[trigger] bq@[j]) == (ids[j], 0u32),
                forall|j: int| 0 <= j < fq@.len() ==> (#[trigger] fq@[j]).1 <= max_hops,
                forall|x: u64| bv.spec_map().contains_key(x) <==> ids.contains(x),
                forall|x: u64| #[trigger] bv.spec_map().contains_key(x) ==> bv.spec_map()[x] == 0,
                forall|x: u64| #[trigger] fv.spec_map().contains_key(x) ==> fv.spec_map()[x] <= max_hops,
                forall|i: int| 0 <= i < meet@.len() ==> meeting_point(gs, #[trigger] meet@[i], rel_type@),
                forall|i: int| 0 <= i < meet@.len() ==> met_in_range(gs, start_nodes@, rel_type@, #[trigger] meet@[i], min_hops, max_hops),
                max_hops == 0 ==> meet@.len() == 0,
                forall|j: int, x: u64| 0 <= j < fh && (#[trigger] fq@[j]).1 < max_hops && #[trigger] gs.nbrs(fq@[j].0).contains(x)
                    && typed(gs, x, rel_type@) && min_hops <= fq@[j].1 + 1 ==> meet@.contains(x),
                forward_sound(gs, start_nodes@, rel_type@, fq@, fv.spec_map()),
                expanded(gs, rel_type@, fq@, fh as int, fv.spec_map(), max_hops),
            decreases (fq@.len() - fh) + (bq@.len() - bh) + pot_sum(ids, fv.spec_map(), cap),
        {
            let ghost fq_start = fq@;
            let mut skip_backward = false;
            // forward turn
            if fh < fq.len() && fq[fh].1 <= max_hops {
                let (u, d) = fq[fh];
                fh = fh + 1;
                if d >= max_hops {
                    skip_backward = true;
                } else {
                    let nb = g.neighbors(u);
                    let ghost fq0 = fq@;
                    let ghost fv0 = fv.spec_map();
                    let ghost meet0 = meet@;
                    let ghost bq0 = bq@;
                    proof {
                        assert(fq0[fh - 1] == (u, d));
                        assert(typed_walk(gs, start_nodes@, rel_type@, fq0[fh - 1].0, fq0[fh - 1].1 as nat));
                    }
                    let mut t: usize = 0;
                    while t < nb.len()
                        invariant
                            gs == *g,
                            bq@ == bq0,
                            nstart <= fq0.len(),
                            forall|j: int| 0 <= j < nstart ==> (#[trigger] fq0[j]) == (start_nodes@[j], 0u32),
                            ids == gs.spec_ids(),
                            ids.no_duplicates(),
                            cap == max_hops as nat + 1,
                            rel@ == rel_type@,
                            nb@ == gs.nbrs(u),
                            d < max_hops,
                            t <= nb@.len(),
                            fh <= fq0.len(),
                            fq0.len() <= fq@.len(),
                            forall|j: int| 0 <= j < fq0.len() ==> fq@[j] == fq0[j],
                            forall|j: int| 0 <= j < fq@.len() ==> (#[trigger] fq@[j]).1 <= max_hops,
                            forall|x: u64| bv.spec_map().contains_key(x) <==> ids.contains(x),
                            forall|x: u64| #[trigger] bv.spec_map().contains_key(x) ==> bv.spec_map()[x] == 0,
                            forall|x: u64| #[trigger] fv.spec_map().contains_key(x) ==> fv.spec_map()[x] <= max_hops,
                            forall|x: u64| fv0.contains_key(x) ==> #[trigger] fv.spec_map().contains_key(x) && fv.spec_map()[x] <= fv0[x],
                            fh >= 1,
                            fq0[fh - 1] == (u, d),
                            typed_walk(gs, start_nodes@, rel_type@, u, d as nat),
                            forward_sound(gs, start_nodes@, rel_type@, fq@, fv.spec_map()),
                            expanded(gs, rel_type@, fq0, fh - 1, fv0, max_hops),
                            forall|i: int| 0 <= i < t && typed(gs, #[trigger] nb@[i], rel_type@)
                                ==> fv.spec_map().contains_key(nb@[i]) && fv.spec_map()[nb@[i]] <= d + 1,
                            (fq@.len() - fq0.len()) + pot_sum(ids, fv.spec_map(), cap) <= pot_sum(ids, fv0, cap),
                            meet0.len() <= meet@.len(),
                            forall|i: int| 0 <= i < meet0.len() ==> meet@[i] == meet0[i],
                            forall|i: int| 0 <= i < meet@.len() ==> meeting_point(gs, #[trigger] meet@[i], rel_type@),
                            forall|i: int| 0 <= i < meet@.len() ==> met_in_range(gs, start_nodes@, rel_type@, #[trigger] meet@[i], min_hops, max_hops),
                            forall|i: int| 0 <= i < t && typed(gs, #[trigger] nb@[i], rel_type@) && min_hops <= d + 1
                                ==> meet@.contains(nb@[i]),
                        decreases nb@.len() - t,
                    {
                        let n = nb[t];
                        let ghost mb = meet@;
                        let ghost fvt = fv.spec_map();
                        proof {
                            assert(nb@[t as int] == n);
                            assert(nb@.contains(n));
                            lemma_nbrs_are_nodes(gs, u, n);
                            assert(ids.contains(n));
                        }
                        if node_has_relation(g, n, &rel) {
                            let new_depth = d + 1;
                            match bv.get(n) {
                                Some(bd) => {
                                    let total: u64 = new_depth as u64 + *bd as u64;
                                    if total >= min_hops as u64 && total <= max_hops as u64 {
                                        proof {
                                            assert(gs.nbrs(u).contains(n));
                                            assert(typed_walk(gs, start_nodes@, rel_type@, n, (d + 1) as nat));
                                        }
                                        meet.push(n);
                                        proof {
                                            assert(meet@[meet@.len() - 1] == n);
                                        }
                                    }
                                },
                                None => {},
                            }
                            let fresh = match fv.get(n) {
                                None => true,
                                Some(fd) => *fd > new_depth,
                            };
                            if fresh {
                                let ghost fvb = fv.spec_map();
                                let ghost fqb = fq@;
                                proof {
                                    lemma_pot_sum_lower(ids, fvb, n, new_depth, cap);
                                }
                                fv.insert(n, new_depth);
                                if new_depth <= max_hops {
                                    fq.push((n, new_depth));
                                }
                                proof {
                                    let fvm = fv.spec_map();
                                    assert(typed_walk(gs, start_nodes@, rel_type@, n, new_depth as nat)) by {
                                        assert(gs.nbrs(u).contains(n));
                                    }
                                    assert forall|j: int| 0 <= j < fq@.len() implies typed_walk(gs, start_nodes@, rel_type@, (#[trigger] fq@[j]).0, fq@[j].1 as nat) by {
                                        if j < fqb.len() {
                                            assert(fq@[j] == fqb[j]);
                                        }
                                    }
                                    assert forall|x: u64| #[trigger] fvm.contains_key(x) implies exists|j: int| 0 <= j < fq@.len() && #[trigger] fq@[j] == (x, fvm[x]) by {
                                        if x == n {
                                            assert(fq@[fqb.len() as int] == (x, fvm[x]));
                                        } else {
                                            assert(fvb.contains_key(x));
                                            let j = choose|j: int| 0 <= j < fqb.len() && #[trigger] fqb[j] == (x, fvb[x]);
                                            assert(fq@[j] == (x, fvm[x]));
                                        }
                                    }
                                    assert forall|j: int| 0 <= j < start_nodes@.len() implies fvm.contains_key(#[trigger] start_nodes@[j]) && fvm[start_nodes@[j]] == 0 by {
                                        assert(fvb.contains_key(start_nodes@[j]));
                                    }
                                    assert forall|x: u64| fv0.contains_key(x) implies #[trigger] fvm.contains_key(x) && fvm[x] <= fv0[x] by {
                                        assert(fvb.contains_key(x));
                                    }
                                }
                            }
                        }
                        proof {
                            assert forall|i: int| 0 <= i < t + 1 && typed(gs, #[trigger] nb@[i], rel_type@)
                                implies fv.spec_map().contains_key(nb@[i]) && fv.spec_map()[nb@[i]] <= d + 1 by {
                                if i == t {
                                    assert(nb@[i] == n);
                                }
                            }
                            assert forall|x: u64| fv0.contains_key(x) implies #[trigger] fv.spec_map().contains_key(x) && fv.spec_map()[x] <= fv0[x] by {
                                assert(fvt.contains_key(x));
                                if x == n && fv.spec_map() != fvt {
                                    assert(fvt[x] > d + 1);
                                }
                            }
                            assert forall|i: int| 0 <= i < t + 1 && typed(gs, #[trigger] nb@[i], rel_type@) && min_hops <= d + 1
                                implies meet@.contains(nb@[i]) by {
                                if i < t {
                                    assert(mb.contains(nb@[i]));
                                    let w = choose|w: int| 0 <= w < mb.len() && mb[w] == nb@[i];
                                    assert(meet@[w] == nb@[i]);
                                } else {
                                    assert(bv.spec_map().contains_key(n));
                                }
                            }
                        }
                        t = t + 1;
                    }
                    proof {
                        assert forall|j: int, x: u64| 0 <= j < fh && (#[trigger] fq@[j]).1 < max_hops
                            && #[trigger] gs.nbrs(fq@[j].0).contains(x)
                            && typed(gs, x, rel_type@) && min_hops <= fq@[j].1 + 1 implies meet@.contains(x) by {
                            if j < fh - 1 {
                                assert(fq@[j] == fq0[j]);
                                assert(meet0.contains(x));
                                let w = choose|w: int| 0 <= w < meet0.len() && meet0[w] == x;
                                assert(meet@[w] == x);
                            } else {
                                assert(fq@[j] == (u, d));
                                let i = choose|i: int| 0 <= i < nb@.len() && nb@[i] == x;
                                assert(typed(gs, nb@[i], rel_type@));
                            }
                        }
                        let fvm = fv.spec_map();
                        assert forall|j: int, x: u64| 0 <= j < fh && (#[trigger] fq@[j]).1 < max_hops
                            && #[trigger] gs.nbrs(fq@[j].0).contains(x) && typed(gs, x, rel_type@)
                            implies fvm.contains_key(x) && fvm[x] <= fq@[j].1 + 1 by {
                            if j < fh - 1 {
                                assert(fq@[j] == fq0[j]);
                                assert(gs.nbrs(fq0[j].0).contains(x));
                                assert(fv0.contains_key(x) && fv0[x] <= fq0[j].1 + 1);
                                assert(fv.spec_map().contains_key(x));
                            } else {
                                assert(fq@[j] == (u, d));
                                let i = choose|i: int| 0 <= i < nb@.len() && nb@[i] == x;
                                assert(typed(gs, nb@[i], rel_type@));
                                assert(fv.spec_map().contains_key(nb@[i]));
                            }
                        }
                    }
                }
            }
            proof {
                assert(fq_start.len() <= fq@.len());
                assert(forall|j: int| 0 <= j < fq_start.len() ==> fq@[j] == fq_start[j]);
            }
            let ghost fq_mid = fq@;
            // backward turn
            if !skip_backward && bh < bq.len() && bq[bh].1 <= max_hops {
                let (u, d) = bq[bh];
                bh = bh + 1;
                if d < max_hops {
                    proof {
                        assert(bq@[bh - 1] == (ids[bh - 1], 0u32));
                    }
                    let nb = g.neighbors(u);
                    let ghost meet0 = meet@;
                    let ghost fv0 = fv.spec_map();
                    let ghost bq0 = bq@;
                    let ghost fq0 = fq@;
                    let mut t: usize = 0;
                    while t < nb.len()
                        invariant
                            gs == *g,
                            bq@ == bq0,
                            fq@ == fq0,
                            ids == gs.spec_ids(),
                            rel@ == rel_type@,
                            nb@ == gs.nbrs(u),
                            d < max_hops,
                            t <= nb@.len(),
                            forall|x: u64| bv.spec_map().contains_key(x) <==> ids.contains(x),
                            forall|x: u64| #[trigger] bv.spec_map().contains_key(x) ==> bv.spec_map()[x] == 0,
                            fv.spec_map() == fv0,
                            d == 0,
                            forward_sound(gs, start_nodes@, rel_type@, fq0, fv0),
                            meet0.len() <= meet@.len(),
                            forall|i: int| 0 <= i < meet0.len() ==> meet@[i] == meet0[i],
                            forall|i: int| 0 <= i < meet@.len() ==> meeting_point(gs, #[trigger] meet@[i], rel_type@),
                            forall|i: int| 0 <= i < meet@.len() ==> met_in_range(gs, start_nodes@, rel_type@, #[trigger] meet@[i], min_hops, max_hops),
                        decreases nb@.len() - t,
                    {
                        let n = nb[t];
                        proof {
                            assert(nb@.contains(n));
                            lemma_nbrs_are_nodes(gs, u, n);
                            assert(ids.contains(n));
                        }
                        if node_has_relation(g, n, &rel) {
                            let new_depth = d + 1;
                            match fv.get(n) {
                                Some(fd) => {
                                    let total: u64 = *fd as u64 + new_depth as u64;
                                    if total >= min_hops as u64 && total <= max_hops as u64 {
                                        proof {
                                            let j = choose|j: int| 0 <= j < fq0.len() && #[trigger] fq0[j] == (n, fv0[n]);
                                            assert(typed_walk(gs, start_nodes@, rel_type@, fq0[j].0, fq0[j].1 as nat));
                                            assert(typed_walk(gs, start_nodes@, rel_type@, n, *fd as nat));
                                        }
                                        meet.push(n);
                                        proof {
                                            assert(meet@[meet@.len() - 1] == n);
                                        }
                                    }
                                },
                                None => {},
                            }
                            let fresh = match bv.get(n) {
                                None => true,
                                Some(bd) => *bd > new_depth,
                            };
                            if fresh {
                                bv.insert(n, new_depth);
                                if new_depth <= max_hops {
                                    bq.push((n, new_depth));
                                }
                            }
                        }
                        t = t + 1;
                    }
                    proof {
                        assert forall|j: int, x: u64| 0 <= j < fh && (#[trigger] fq@[j]).1 < max_hops
                            && #[trigger] gs.nbrs(fq@[j].0).contains(x)
                            && typed(gs, x, rel_type@) && min_hops <= fq@[j].1 + 1 implies meet@.contains(x) by {
                            assert(meet0.contains(x));
                            let w = choose|w: int| 0 <= w < meet0.len() && meet0[w] == x;
                            assert(meet@[w] == x);
                        }
                    }
                }
            }
            proof {
                assert(fq@ == fq_mid);
                assert forall|j: int| 0 <= j < nstart implies #[trigger] fq@[j] == (start_nodes@[j], 0u32) by {
                    assert(fq@[j] == fq_start[j]);
                }
            }
        }
        proof {
            assert forall|s: u64, x: u64| min_hops <= 1 <= max_hops && start_nodes@.contains(s)
                && #[trigger] g.nbrs(s).contains(x) && typed(*g, x, rel_type@) implies meet@.contains(x) by {
                let j = choose|j: int| 0 <= j < start_nodes@.len() && start_nodes@[j] == s;
                assert(fq@[j] == (s, 0u32));
                assert(j < fh);
                assert(fq@[j].1 < max_hops);
                assert(gs.nbrs(fq@[j].0).contains(x));
            }
        }
        proof {
            let fvm = fv.spec_map();
            assert(fh == fq@.len());
            assert forall|u: u64, x: u64, d: nat|
                #![trigger typed_distance(gs, start_nodes@, rel_type@, u, d), gs.nbrs(u).contains(x)]
                typed_distance(gs, start_nodes@, rel_type@, u, d) && gs.nbrs(u).contains(x)
                && typed(gs, x, rel_type@) && min_hops <= d + 1 <= max_hops implies meet@.contains(x) by {
                lemma_walk_recorded(gs, start_nodes@, rel_type@, fq@, fvm, max_hops, u, d);
                let j = choose|j: int| 0 <= j < fq@.len() && #[trigger] fq@[j] == (u, fvm[u]);
                assert(typed_walk(gs, start_nodes@, rel_type@, fq@[j].0, fq@[j].1 as nat));
                if (fvm[u] as nat) < d {
                    assert(!typed_walk(gs, start_nodes@, rel_type@, u, fvm[u] as nat));
                }
                assert(fq@[j].1 < max_hops);
                assert(gs.nbrs(fq@[j].0).contains(x));
            }
        }
        let r = dedup(meet.as_slice());
        proof {
            assert forall|u: u64, x: u64, d: nat|
                #![trigger typed_distance(*g, start_nodes@, rel_type@, u, d), g.nbrs(u).contains(x)]
                typed_distance(*g, start_nodes@, rel_type@, u, d) && g.nbrs(u).contains(x)
                && typed(*g, x, rel_type@) && min_hops <= d + 1 <= max_hops implies r@.contains(x) by {
                assert(meet@.contains(x));
                assert(meet@.to_set().contains(x));
                assert(r@.to_set().contains(x));
            }
            assert forall|x: u64, k: nat| #[trigger] typed_distance(*g, start_nodes@, rel_type@, x, k)
                && 1 <= k && min_hops <= k <= max_hops implies r@.contains(x) by {
                let u = lemma_distance_predecessor(*g, start_nodes@, rel_type@, x, k);
                assert(typed(*g, x, rel_type@));
                assert(typed_distance(*g, start_nodes@, rel_type@, u, (k - 1) as nat) && g.nbrs(u).contains(x));
            }
            assert forall|x: u64| #[trigger] r@.contains(x) implies meeting_point(*g, x, rel_type@)
                && met_in_range(*g, start_nodes@, rel_type@, x, min_hops, max_hops) by {
                assert(r@.to_set().contains(x));
                assert(meet@.to_set().contains(x));
                let w = choose|w: int| 0 <= w < meet@.len() && meet@[w] == x;
            }
            if min_hops > max_hops && r@.len() > 0 {
                assert(r@.contains(r@[0]));
            }
            assert forall|s: u64, x: u64| min_hops <= 1 <= max_hops && start_nodes@.contains(s)
                && #[trigger] g.nbrs(s).contains(x) && typed(*g, x, rel_type@) implies #[trigger] r@.contains(x) by {
                assert(meet@.to_set().contains(x));
                assert(r@.to_set().contains(x));
            }
            if max_hops == 0 {
                assert(meet@.to_set() =~= Set::<u64>::empty());
                r@.unique_seq_to_set();
            }
        }
        Ok(r)
    }
}

} // verus!
