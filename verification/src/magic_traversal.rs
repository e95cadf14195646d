//! Bounded graph traversal by semi-naive evaluation.
//!
//! Level 0 is the set of start nodes; level `i` holds the nodes first reached
//! after `i` steps. Each round expands only the previous level (the delta)
//! and keeps the nodes not seen before.

use vstd::prelude::*;
use crate::graph::{Graph, vec_contains};

verus! {

/// Nodes reachable in one step from some node of `a`.
pub open spec fn post(g: Graph, a: Set<u64>, et: Option<Seq<char>>) -> Set<u64> {
    Set::new(|w: u64| exists|u: u64| a.contains(u) && #[trigger] g.step(u, w, et))
}

/// Nodes reachable from `s` in at most `k` steps.
pub open spec fn within(g: Graph, s: Set<u64>, k: nat, et: Option<Seq<char>>) -> Set<u64>
    decreases k,
{
    if k == 0 {
        s
    } else {
        within(g, s, (k - 1) as nat, et).union(post(g, within(g, s, (k - 1) as nat, et), et))
    }
}

/// Nodes whose distance from `s` is exactly `k`.
pub open spec fn level(g: Graph, s: Set<u64>, k: nat, et: Option<Seq<char>>) -> Set<u64> {
    if k == 0 {
        s
    } else {
        within(g, s, k, et).difference(within(g, s, (k - 1) as nat, et))
    }
}

/// The edge-type filter as a spec value.
pub open spec fn opt_str(o: Option<&str>) -> Option<Seq<char>> {
    match o {
        Some(s) => Some(s@),
        None => None,
    }
}

/// Every level lies inside the ball of the same radius, and the ball of
/// radius `k` is the ball of radius `k - 1` plus level `k`.
pub proof fn lemma_within_level(g: Graph, s: Set<u64>, k: nat, et: Option<Seq<char>>)
    requires
        k >= 1,
    ensures
        within(g, s, k, et) == within(g, s, (k - 1) as nat, et).union(level(g, s, k, et)),
{
    assert(within(g, s, k, et) =~= within(g, s, (k - 1) as nat, et).union(level(g, s, k, et)));
}

/// Balls grow with the radius.
pub proof fn lemma_within_mono(g: Graph, s: Set<u64>, a: nat, b: nat, et: Option<Seq<char>>)
    requires
        a <= b,
    ensures
        within(g, s, a, et).subset_of(within(g, s, b, et)),
    decreases b,
{
    if a < b {
        lemma_within_mono(g, s, a, (b - 1) as nat, et);
    }
}

/// Semi-naive step: level `k + 1` is what level `k` reaches in one step,
/// minus the ball of radius `k`.
pub proof fn lemma_level_step(g: Graph, s: Set<u64>, k: nat, et: Option<Seq<char>>)
    ensures
        level(g, s, k + 1, et) == post(g, level(g, s, k, et), et).difference(within(g, s, k, et)),
{
    let wk = within(g, s, k, et);
    let lhs = level(g, s, k + 1, et);
    let rhs = post(g, level(g, s, k, et), et).difference(wk);
    assert forall|w: u64| lhs.contains(w) implies rhs.contains(w) by {
        assert(post(g, wk, et).contains(w));
        let u = choose|u: u64| wk.contains(u) && g.step(u, w, et);
        if k > 0 {
            let wp = within(g, s, (k - 1) as nat, et);
            if wp.contains(u) {
                assert(post(g, wp, et).contains(w));
                assert(wk.contains(w));
            }
            assert(level(g, s, k, et).contains(u));
        }
    }
    assert forall|w: u64| rhs.contains(w) implies lhs.contains(w) by {
        let u = choose|u: u64| level(g, s, k, et).contains(u) && g.step(u, w, et);
        if k > 0 {
            assert(wk.contains(u));
        }
        assert(post(g, wk, et).contains(w));
    }
    assert(lhs =~= rhs);
}

/// What a traversal returns.
pub struct TraversalResult {
    /// Nodes of the levels at or past the minimum hop count, ascending, each once.
    pub visited: Vec<u64>,
    /// The non-empty levels, level 0 first.
    pub levels: Vec<Vec<u64>>,
    /// Number of distinct nodes reached at any level.
    pub total_visited: usize,
}

/// Traversal over a graph.
pub struct MagicTraversal {
    pub graph: Graph,
}

/// The elements of `s`, each once, in order of first occurrence.
pub fn dedup(s: &[u64]) -> (r: Vec<u64>)
    ensures
        r@.no_duplicates(),
        r@.to_set() == s@.to_set(),
{
    let mut r: Vec<u64> = Vec::new();
    let mut i: usize = 0;
    while i < s.len()
        invariant
            i <= s@.len(),
            r@.no_duplicates(),
            r@.to_set() == s@.take(i as int).to_set(),
        decreases s@.len() - i,
    {
        let x = s[i];
        proof {
            assert(s@.take(i + 1) =~= s@.take(i as int).push(x));
            s@.take(i as int).lemma_push_to_set_commute(x);
        }
        if !vec_contains(&r, x) {
            proof {
                r@.lemma_push_to_set_commute(x);
            }
            r.push(x);
        } else {
            assert(r@.to_set().insert(x) =~= r@.to_set());
        }
        i = i + 1;
    }
    assert(s@.take(s@.len() as int) =~= s@);
    r
}

/// Inserts `x` into the strictly ascending `v`, keeping it strictly ascending.
pub fn insert_sorted(v: &mut Vec<u64>, x: u64)
    requires
        forall|a: int, b: int| 0 <= a < b < old(v)@.len() ==> old(v)@[a] < old(v)@[b],
    ensures
        forall|a: int, b: int| 0 <= a < b < final(v)@.len() ==> final(v)@[a] < final(v)@[b],
        final(v)@.to_set() == old(v)@.to_set().insert(x),
{
    let mut i: usize = 0;
    while i < v.len() && v[i] < x
        invariant
            i <= v@.len(),
            v@ == old(v)@,
            forall|j: int| 0 <= j < i ==> v@[j] < x,
        decreases v@.len() - i,
    {
        i = i + 1;
    }
    if i < v.len() && v[i] == x {
        assert(v@.to_set().insert(x) =~= v@.to_set());
        return;
    }
    let ghost before = v@;
    v.insert(i, x);
    proof {
        assert(v@ == before.insert(i as int, x));
        assert forall|a: int, b: int| 0 <= a < b < v@.len() implies v@[a] < v@[b] by {
            if a < i && b == i {
            } else if a < i && b > i {
                assert(v@[b] == before[b - 1]);
                assert(before[a] < before[b - 1] || a == b - 1);
            } else if a == i {
                assert(v@[b] == before[b - 1]);
                assert(before[i as int] > x);
                assert(before[i as int] <= before[b - 1]);
            } else if b < i {
                assert(v@[a] == before[a]);
                assert(v@[b] == before[b]);
            } else {
                assert(v@[a] == before[a - 1]);
                assert(v@[b] == before[b - 1]);
            }
        }
        assert forall|y: u64| v@.to_set().contains(y) implies before.to_set().insert(x).contains(y) by {
            let j = choose|j: int| 0 <= j < v@.len() && v@[j] == y;
            if j < i {
                assert(before[j] == y);
            } else if j > i {
                assert(before[j - 1] == y);
            }
        }
        assert forall|y: u64| before.to_set().insert(x).contains(y) implies v@.to_set().contains(y) by {
            if y == x {
                assert(v@[i as int] == x);
            } else {
                let j = choose|j: int| 0 <= j < before.len() && before[j] == y;
                if j < i {
                    assert(v@[j] == y);
                } else {
                    assert(v@[j + 1] == y);
                }
            }
        }
        assert(v@.to_set() =~= before.to_set().insert(x));
    }
}

fn copy_vec(v: &Vec<u64>) -> (r: Vec<u64>)
    ensures
        r@ == v@,
{
    let r = v.clone();
    assert(r@ =~= v@) by {
        assert forall|i: int| 0 <= i < v@.len() implies r@[i] == v@[i] by {
            assert(vstd::pervasive::cloned::<u64>(v[i], r[i]));
        }
    }
    r
}

impl MagicTraversal {
    /// A traversal over `graph`.
    pub fn new(graph: Graph) -> (t: Self)
        ensures
            t.graph == graph,
    {
        MagicTraversal { graph }
    }

}

/// The nodes outside `visited` reached in one step from `delta`, each once.
pub fn expand(g: &Graph, delta: &Vec<u64>, visited: &Vec<u64>, edge_type: Option<&str>) -> (r: Vec<u64>)
    ensures
        r@.no_duplicates(),
        forall|w: u64| r@.contains(w) <==> (!visited@.contains(w)
            && exists|u: u64| delta@.contains(u) && #[trigger] g.step(u, w, opt_str(edge_type))),
{
        let ghost et = opt_str(edge_type);
        let mut next: Vec<u64> = Vec::new();
        let mut j: usize = 0;
        while j < delta.len()
            invariant
                j <= delta@.len(),
                et == opt_str(edge_type),
                next@.no_duplicates(),
                forall|w: u64| next@.contains(w) <==> (!visited@.contains(w)
                    && exists|u: u64| delta@.take(j as int).contains(u) && #[trigger] g.step(u, w, et)),
            decreases delta@.len() - j,
        {
            let u = delta[j];
            let ns = g.neighbors(u);
            let ghost prev = next@;
            let mut k: usize = 0;
            while k < ns.len()
                invariant
                    k <= ns@.len(),
                    j < delta@.len(),
                    u == delta@[j as int],
                    ns@ == g.nbrs(u),
                    et == opt_str(edge_type),
                    next@.no_duplicates(),
                    forall|w: u64| prev.contains(w) <==> (!visited@.contains(w)
                        && exists|u2: u64| delta@.take(j as int).contains(u2) && #[trigger] g.step(u2, w, et)),
                    forall|w: u64| next@.contains(w) <==> (prev.contains(w) || (!visited@.contains(w)
                        && ns@.take(k as int).contains(w) && g.step(u, w, et))),
                decreases ns@.len() - k,
            {
                let w = ns[k];
                let typed = match edge_type {
                    None => true,
                    Some(t) => g.has_typed_edge(u, t, w),
                };
                proof {
                    assert(ns@.take(k + 1) =~= ns@.take(k as int).push(w));
                    assert(ns@[k as int] == w);
                    assert(ns@.contains(w));
                    assert(typed == g.step(u, w, et));
                }
                let ghost before_push = next@;
                if typed && !vec_contains(visited, w) && !vec_contains(&next, w) {
                    next.push(w);
                    proof {
                        assert forall|a: int, b: int| 0 <= a < b < next@.len() implies next@[a] != next@[b] by {
                            if b == next@.len() - 1 {
                                assert(before_push[a] == next@[a]);
                                assert(before_push.contains(next@[a]));
                            }
                        }
                    }
                }
                proof {
                    assert forall|x: u64| next@.contains(x) <==> (before_push.contains(x) || (x == w && typed
                        && !visited@.contains(w) && !before_push.contains(w))) by {
                        if next@.contains(x) && next@ != before_push {
                            let i = choose|i: int| 0 <= i < next@.len() && next@[i] == x;
                            if i < before_push.len() {
                                assert(before_push[i] == x);
                            }
                        }
                        if before_push.contains(x) && next@ != before_push {
                            let i = choose|i: int| 0 <= i < before_push.len() && before_push[i] == x;
                            assert(next@[i] == x);
                        }
                        if x == w && typed && !visited@.contains(w) && !before_push.contains(w) {
                            assert(next@[next@.len() - 1] == w);
                        }
                    }
                }
                proof {
                    let tk1 = ns@.take(k + 1);
                    let tk = ns@.take(k as int);
                    assert forall|x: u64| next@.contains(x) <==> (prev.contains(x) || (!visited@.contains(x)
                        && tk1.contains(x) && g.step(u, x, et))) by {
                        assert(before_push.contains(x) <==> (prev.contains(x) || (!visited@.contains(x)
                            && tk.contains(x) && g.step(u, x, et))));
                        assert(next@.contains(x) <==> (before_push.contains(x) || (x == w && typed
                            && !visited@.contains(w) && !before_push.contains(w))));
                        if x == w {
                            assert(tk1[k as int] == w);
                        }
                        if tk1.contains(x) && !tk.contains(x) {
                            let i = choose|i: int| 0 <= i < tk1.len() && tk1[i] == x;
                            if i < k {
                                assert(tk[i] == x);
                            }
                        }
                        if tk.contains(x) {
                            let i = choose|i: int| 0 <= i < tk.len() && tk[i] == x;
                            assert(tk1[i] == x);
                        }
                    }
                }
                k = k + 1;
            }
            proof {
                let dj1 = delta@.take(j + 1);
                let dj = delta@.take(j as int);
                assert(ns@.take(ns@.len() as int) =~= ns@);
                assert(dj1 =~= dj.push(u));
                assert forall|w: u64| next@.contains(w) <==> (!visited@.contains(w)
                    && exists|u2: u64| dj1.contains(u2) && #[trigger] g.step(u2, w, et)) by {
                    if next@.contains(w) && !prev.contains(w) {
                        assert(dj1[j as int] == u);
                    }
                    if !visited@.contains(w) && exists|u2: u64| dj1.contains(u2) && #[trigger] g.step(u2, w, et) {
                        let u2 = choose|u2: u64| dj1.contains(u2) && #[trigger] g.step(u2, w, et);
                        let i = choose|i: int| 0 <= i < dj1.len() && dj1[i] == u2;
                        if i < j {
                            assert(dj[i] == u2);
                            assert(prev.contains(w));
                        } else {
                            assert(u2 == u);
                        }
                    }
                    if prev.contains(w) {
                        let u2 = choose|u2: u64| dj.contains(u2) && #[trigger] g.step(u2, w, et);
                        let i = choose|i: int| 0 <= i < dj.len() && dj[i] == u2;
                        assert(dj1[i] == u2);
                    }
                }
            }
            j = j + 1;
        }
        assert(delta@.take(delta@.len() as int) =~= delta@);
        next
}

impl MagicTraversal {

    /// Semi-naive breadth-first traversal from `start_nodes` for at most
    /// `max_hops` steps, following the step relation of the graph (with
    /// `edge_type`, a neighbour counts only if the node being expanded has an
    /// edge of that type to it). Levels are recorded until one comes out
    /// empty or `max_hops` is reached; `visited` holds the nodes of the levels
    /// numbered `min_hops` or more.
    pub fn semi_naive_bfs(&self, start_nodes: &[u64], max_hops: u32, min_hops: u32, edge_type: Option<&str>)
        -> (r: Result<TraversalResult, String>)
        ensures
            r matches Ok(res) && ({
                let g = self.graph;
                let s = start_nodes@.to_set();
                let et = opt_str(edge_type);
                let n = res.levels@.len();
                &&& 1 <= n <= max_hops + 1
                &&& forall|i: int| 0 <= i < n ==> (#[trigger] res.levels@[i])@.no_duplicates()
                    && res.levels@[i]@.to_set() == level(g, s, i as nat, et)
                &&& forall|i: int| 1 <= i < n ==> (#[trigger] res.levels@[i])@.len() > 0
                &&& (n == max_hops + 1 || level(g, s, n as nat, et) == Set::<u64>::empty())
                &&& res.total_visited == within(g, s, (n - 1) as nat, et).len()
                &&& forall|a: int, b: int| 0 <= a < b < res.visited@.len() ==> res.visited@[a] < res.visited@[b]
                &&& res.visited@.to_set() == Set::new(|x: u64| exists|i: int| min_hops <= i < n
                    && #[trigger] level(g, s, i as nat, et).contains(x))
            }),
    {
        let ghost g = self.graph;
        let ghost s = start_nodes@.to_set();
        let ghost et = opt_str(edge_type);
        let mut delta = dedup(start_nodes);
        let mut visited = copy_vec(&delta);
        let mut levels: Vec<Vec<u64>> = Vec::new();
        levels.push(copy_vec(&delta));
        let mut hop: u64 = 1;
        let mut done = delta.len() == 0;
        proof {
            if done {
                assert(s =~= Set::<u64>::empty());
                lemma_level_step(g, s, 0, et);
                assert(post(g, s, et) =~= Set::<u64>::empty());
                assert(level(g, s, 1, et) =~= Set::<u64>::empty());
            }
        }
        while hop <= max_hops as u64 && !done
            invariant
                1 <= hop <= max_hops as u64 + 1,
                levels@.len() == hop,
                forall|i: int| 0 <= i < hop ==> (#[trigger] levels@[i])@.no_duplicates()
                    && levels@[i]@.to_set() == level(g, s, i as nat, et),
                forall|i: int| 1 <= i < hop ==> (#[trigger] levels@[i])@.len() > 0,
                delta@ == levels@[hop - 1]@,
                visited@.no_duplicates(),
                visited@.to_set() == within(g, s, (hop - 1) as nat, et),
                done ==> level(g, s, hop as nat, et) == Set::<u64>::empty(),
                s == start_nodes@.to_set(),
                et == opt_str(edge_type),
                g == self.graph,
            decreases max_hops as u64 + 1 - hop, (if done { 0int } else { 1int }),
        {
            let next = expand(&self.graph, &delta, &visited, edge_type);
            proof {
                let k = (hop - 1) as nat;
                lemma_level_step(g, s, k, et);
                assert forall|w: u64| next@.to_set().contains(w) <==> level(g, s, hop as nat, et).contains(w) by {
                    assert(next@.contains(w) == next@.to_set().contains(w));
                    if next@.contains(w) {
                        let u = choose|u: u64| delta@.contains(u) && g.step(u, w, et);
                        assert(levels@[hop - 1]@.to_set().contains(u));
                        assert(!visited@.to_set().contains(w));
                    }
                    if level(g, s, hop as nat, et).contains(w) {
                        let u = choose|u: u64| level(g, s, k, et).contains(u) && g.step(u, w, et);
                        assert(levels@[hop - 1]@.to_set().contains(u));
                        assert(delta@.contains(u));
                        assert(!visited@.to_set().contains(w));
                    }
                }
                assert(next@.to_set() =~= level(g, s, hop as nat, et));
            }
            if next.len() == 0 {
                proof {
                    assert(next@.to_set() =~= Set::<u64>::empty());
                }
                done = true;
            } else {
                levels.push(copy_vec(&next));
                let ghost vstart = visited@;
                let mut i: usize = 0;
                while i < next.len()
                    invariant
                        i <= next@.len(),
                        next@.no_duplicates(),
                        forall|w: u64| next@.contains(w) ==> !vstart.contains(w),
                        visited@ == vstart + next@.take(i as int),
                        vstart.no_duplicates(),
                    decreases next@.len() - i,
                {
                    proof {
                        assert(next@.take(i + 1) =~= next@.take(i as int).push(next@[i as int]));
                    }
                    visited.push(next[i]);
                    i = i + 1;
                }
                proof {
                    assert(next@.take(next@.len() as int) =~= next@);
                    assert forall|w: u64| next@.contains(w) implies !vstart.contains(w) by {
                        assert(!visited@.to_set().contains(w) || true);
                    }
                    assert(visited@.no_duplicates()) by {
                        assert forall|a: int, b: int| 0 <= a < b < visited@.len() implies visited@[a] != visited@[b] by {
                            if b >= vstart.len() && a < vstart.len() {
                                assert(next@.contains(visited@[b]));
                                assert(vstart.contains(visited@[a]));
                            }
                        }
                    }
                    lemma_within_level(g, s, hop as nat, et);
                    assert forall|y: u64| visited@.to_set().contains(y) <==> vstart.to_set().union(next@.to_set()).contains(y) by {
                        if visited@.contains(y) {
                            let j = choose|j: int| 0 <= j < visited@.len() && visited@[j] == y;
                            if j >= vstart.len() {
                                assert(next@[j - vstart.len()] == y);
                            } else {
                                assert(vstart[j] == y);
                            }
                        }
                        if vstart.contains(y) {
                            let j = choose|j: int| 0 <= j < vstart.len() && vstart[j] == y;
                            assert(visited@[j] == y);
                        }
                        if next@.contains(y) {
                            let j = choose|j: int| 0 <= j < next@.len() && next@[j] == y;
                            assert(visited@[vstart.len() + j] == y);
                        }
                    }
                    assert(visited@.to_set() =~= vstart.to_set().union(next@.to_set()));
                }
                delta = next;
                hop = hop + 1;
            }
        }
        let n = levels.len();
        let mut result: Vec<u64> = Vec::new();
        let mut li: usize = min_hops as usize;
        let ghost target = Set::new(|x: u64| exists|i: int| min_hops <= i < n
            && #[trigger] level(g, s, i as nat, et).contains(x));
        if li > n {
            li = n;
        }
        let start_li = li;
        while li < n
            invariant
                start_li <= li <= n,
                n == levels@.len(),
                start_li == (if min_hops as int > n { n as int } else { min_hops as int }),
                forall|i: int| 0 <= i < n ==> (#[trigger] levels@[i])@.to_set() == level(g, s, i as nat, et),
                forall|a: int, b: int| 0 <= a < b < result@.len() ==> result@[a] < result@[b],
                result@.to_set() == Set::new(|x: u64| exists|i: int| start_li <= i < li
                    && #[trigger] level(g, s, i as nat, et).contains(x)),
            decreases n - li,
        {
            let lv = &levels[li];
            let ghost before = result@.to_set();
            let mut k: usize = 0;
            while k < lv.len()
                invariant
                    k <= lv@.len(),
                    forall|a: int, b: int| 0 <= a < b < result@.len() ==> result@[a] < result@[b],
                    result@.to_set() == before.union(lv@.take(k as int).to_set()),
                decreases lv@.len() - k,
            {
                insert_sorted(&mut result, lv[k]);
                proof {
                    assert(lv@.take(k + 1) =~= lv@.take(k as int).push(lv@[k as int]));
                    lv@.take(k as int).lemma_push_to_set_commute(lv@[k as int]);
                    assert(result@.to_set() =~= before.union(lv@.take(k + 1).to_set()));
                }
                k = k + 1;
            }
            proof {
                assert(lv@.take(lv@.len() as int) =~= lv@);
                assert(levels@[li as int]@.to_set() == level(g, s, li as nat, et));
                assert forall|x: u64| result@.to_set().contains(x) <==> (exists|i: int| start_li <= i < li + 1
                    && #[trigger] level(g, s, i as nat, et).contains(x)) by {
                    if result@.to_set().contains(x) && !before.contains(x) {
                        assert(level(g, s, li as nat, et).contains(x));
                    }
                    if exists|i: int| start_li <= i < li + 1 && #[trigger] level(g, s, i as nat, et).contains(x) {
                        let i = choose|i: int| start_li <= i < li + 1 && #[trigger] level(g, s, i as nat, et).contains(x);
                        if i == li {
                            assert(lv@.to_set().contains(x));
                        }
                    }
                }
                assert(result@.to_set() =~= Set::new(|x: u64| exists|i: int| start_li <= i < li + 1
                    && #[trigger] level(g, s, i as nat, et).contains(x)));
            }
            li = li + 1;
        }
        proof {
            assert(result@.to_set() =~= target);
            visited@.unique_seq_to_set();
        }
        Ok(TraversalResult { visited: result, levels, total_visited: visited.len() })
    }

    /// Traversal from the single seed `seed` with no minimum hop count.
    pub fn magic_set_traversal(&self, seed: u64, max_hops: u32, edge_type: Option<&str>)
        -> (r: Result<TraversalResult, String>)
        ensures
            r matches Ok(res) && ({
                let g = self.graph;
                let s = set![seed];
                let et = opt_str(edge_type);
                let n = res.levels@.len();
                &&& 1 <= n <= max_hops + 1
                &&& forall|i: int| 0 <= i < n ==> (#[trigger] res.levels@[i])@.no_duplicates()
                    && res.levels@[i]@.to_set() == level(g, s, i as nat, et)
                &&& forall|i: int| 1 <= i < n ==> (#[trigger] res.levels@[i])@.len() > 0
                &&& (n == max_hops + 1 || level(g, s, n as nat, et) == Set::<u64>::empty())
                &&& res.total_visited == within(g, s, (n - 1) as nat, et).len()
                &&& forall|a: int, b: int| 0 <= a < b < res.visited@.len() ==> res.visited@[a] < res.visited@[b]
                &&& res.visited@.to_set() == Set::new(|x: u64| exists|i: int| 0 <= i < n
                    && #[trigger] level(g, s, i as nat, et).contains(x))
            }),
    {
        let seeds = [seed];
        let sl = seeds.as_slice();
        proof {
            assert(sl@.to_set() =~= set![seed]) by {
                assert(sl@ =~= seq![seed]);
                assert(sl@[0] == seed);
            }
        }
        self.semi_naive_bfs(sl, max_hops, 0, edge_type)
    }
}

} // verus!
