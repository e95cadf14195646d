//! Shard routing on a consistent-hashing ring.
//!
//! Each shard owns three virtual points on the ring, at the hashes of the
//! keys `shard_<s>_replica_<r>`. A node id is routed to the owner of the
//! first point at or after the hash of `node_<id>` (wrapping to the first
//! point); a query hash is routed to the owners of the points closest to it
//! clockwise.

use vstd::prelude::*;
use std::collections::hash_map::DefaultHasher;
use std::hash::Hasher;
use vstd::string::StringSliceAdditionalSpecFns;
use vstd::std_specs::hash::DefaultHasherAdditionalSpecFns;
use crate::graph::Graph;
use std::sync::Arc;

verus! {

/// Decimal digits of `n` as ASCII bytes.
pub open spec fn decimal(n: nat) -> Seq<u8>
    decreases n,
{
    if n < 10 {
        seq![(48 + n) as u8]
    } else {
        decimal(n / 10).push((48 + n % 10) as u8)
    }
}

/// Appends the decimal digits of `n` to `buf`.
pub fn push_decimal(buf: &mut Vec<u8>, n: u64)
    ensures
        final(buf)@ == old(buf)@ + decimal(n as nat),
    decreases n,
{
    if n >= 10 {
        push_decimal(buf, n / 10);
    }
    let d: u8 = (n % 10) as u8;
    buf.push(48u8 + d);
    proof {
        if n < 10 {
            assert(decimal(n as nat) == seq![(48 + n) as u8]);
        }
    }
    assert(buf@ =~= old(buf)@ + decimal(n as nat));
}

/// Appends the bytes of `s` to `buf`.
fn push_str(buf: &mut Vec<u8>, s: &str)
    ensures
        final(buf)@ == old(buf)@ + s.spec_bytes(),
{
    let b = s.as_bytes();
    let mut i: usize = 0;
    while i < b.len()
        invariant
            i <= b@.len(),
            b@ == s.spec_bytes(),
            buf@ == old(buf)@ + b@.take(i as int),
        decreases b@.len() - i,
    {
        buf.push(b[i]);
        i = i + 1;
        assert(buf@ =~= old(buf)@ + b@.take(i as int));
    }
    assert(b@.take(b@.len() as int) =~= b@);
}

/// The hash `DefaultHasher` gives a string whose UTF-8 bytes are `bytes`:
/// `Hash for str` writes the bytes and then a single `0xff` byte.
pub open spec fn hash_of(bytes: Seq<u8>) -> u64 {
    DefaultHasher::spec_finish(seq![bytes, seq![0xffu8]])
}

/// Hashes the string whose UTF-8 bytes are `bytes`, as `str::hash` does with
/// a fresh `DefaultHasher`.
pub fn hash_bytes(bytes: &[u8]) -> (h: u64)
    ensures
        h == hash_of(bytes@),
{
    let mut hasher = DefaultHasher::new();
    hasher.write(bytes);
    let mut tail: Vec<u8> = Vec::new();
    tail.push(0xffu8);
    assert(tail@ =~= seq![0xffu8]);
    hasher.write(tail.as_slice());
    assert(hasher@ =~= seq![bytes@, seq![0xffu8]]);
    hasher.finish()
}

/// The UTF-8 bytes of `prefix` followed by the decimal digits of `n`.
pub open spec fn key_bytes(prefix: Seq<u8>, n: nat) -> Seq<u8> {
    prefix + decimal(n)
}

/// The ring key of replica `r` of shard `s`: `shard_<s>_replica_<r>`.
pub open spec fn replica_key(s: nat, r: nat) -> Seq<u8> {
    "shard_"@.map_values(|c: char| c as u8) + decimal(s) + "_replica_"@.map_values(|c: char| c as u8) + decimal(r)
}

/// The ring after the first `n` virtual points (in shard-major order) were
/// placed; a later point replaces an earlier one on a hash clash.
pub open spec fn ring_after(n: nat) -> Map<u64, u32>
    decreases n,
{
    if n == 0 {
        Map::empty()
    } else {
        let t = (n - 1) as nat;
        ring_after(t).insert(hash_of(replica_key(t / 3, t % 3)), (t / 3) as u32)
    }
}

/// Keys strictly increase along the ring.
pub open spec fn ring_sorted(r: Seq<(u64, u32)>) -> bool {
    forall|a: int, b: int| 0 <= a < b < r.len() ==> r[a].0 < r[b].0
}

/// The ring as a map from point hash to shard.
pub open spec fn ring_map(r: Seq<(u64, u32)>) -> Map<u64, u32> {
    Map::new(
        |k: u64| exists|i: int| 0 <= i < r.len() && (#[trigger] r[i]).0 == k,
        |k: u64| r[choose|i: int| 0 <= i < r.len() && (#[trigger] r[i]).0 == k].1,
    )
}

/// Clockwise distance from `q` to point `h`.
pub open spec fn ring_distance(q: u64, h: u64) -> u64 {
    if q <= h {
        (h - q) as u64
    } else {
        (u64::MAX - q + h) as u64
    }
}

/// `(distance, hash)` of `a` is below that of `b`.
pub open spec fn closer(a: (u64, u64, u32), b: (u64, u64, u32)) -> bool {
    a.0 < b.0 || (a.0 == b.0 && a.1 < b.1)
}

/// The ring points as `(distance from q, hash, shard)`.
pub open spec fn candidates(r: Seq<(u64, u32)>, q: u64) -> Set<(u64, u64, u32)> {
    Set::new(|t: (u64, u64, u32)| exists|i: int| 0 <= i < r.len() && t == (ring_distance(q, (#[trigger] r[i]).0), r[i].0, r[i].1))
}

/// The values of `s` with repeats dropped, first occurrences kept in order.
pub open spec fn dedup_first(s: Seq<u32>) -> Seq<u32>
    decreases s.len(),
{
    if s.len() == 0 {
        s
    } else {
        let d = dedup_first(s.drop_last());
        if d.contains(s.last()) {
            d
        } else {
            d.push(s.last())
        }
    }
}

/// Index of the first ring point at or after `h`, scanning from `i`;
/// `r.len()` when there is none.
pub open spec fn first_at_or_after(r: Seq<(u64, u32)>, h: u64, i: nat) -> int
    decreases r.len() - i,
{
    if i >= r.len() {
        r.len() as int
    } else if r[i as int].0 >= h {
        i as int
    } else {
        first_at_or_after(r, h, i + 1)
    }
}

/// The shard of the first ring point at or after `h`, wrapping to the first
/// point; 0 on an empty ring.
pub open spec fn successor_shard(r: Seq<(u64, u32)>, h: u64) -> u32 {
    let k = first_at_or_after(r, h, 0);
    if k < r.len() {
        r[k].1
    } else if r.len() > 0 {
        r[0].1
    } else {
        0
    }
}

/// The hash of the routing key `node_<id>`.
pub open spec fn node_hash(id: nat) -> u64 {
    hash_of("node_"@.map_values(|c: char| c as u8) + decimal(id))
}

/// The shards that own at least one ring point.
pub open spec fn ring_shards(r: Seq<(u64, u32)>) -> Set<u32> {
    Set::new(|x: u32| exists|j: int| 0 <= j < r.len() && (#[trigger] r[j]).1 == x)
}

/// `s` lists every ring point as `(distance from q, hash, shard)`, nearest
/// first, ties in distance broken by the lower hash.
pub open spec fn by_distance(r: Seq<(u64, u32)>, q: u64, s: Seq<(u64, u64, u32)>) -> bool {
    &&& s.to_set() == candidates(r, q)
    &&& forall|a: int, b: int| 0 <= a < b < s.len() ==> closer(s[a], s[b])
}

/// The first `radius` distinct shards met along the listing `s`.
pub open spec fn nearest_shards(s: Seq<(u64, u64, u32)>, radius: nat) -> Seq<u32> {
    let d = dedup_first(s.map_values(|t: (u64, u64, u32)| t.2));
    d.take(if radius <= d.len() { radius as int } else { d.len() as int })
}

/// The one case in which the point nearest to `q` clockwise is not the first
/// point at or after `q`: points sit at both `u64::MAX` and 0, `q` is past 0
/// and no point lies in `q..u64::MAX`, so both are at distance
/// `u64::MAX - q` and the lower hash, 0, wins the tie.
pub open spec fn wrap_tie(r: Seq<(u64, u32)>, q: u64) -> bool {
    &&& exists|i: int| 0 <= i < r.len() && (#[trigger] r[i]).0 == u64::MAX
    &&& exists|j: int| 0 <= j < r.len() && (#[trigger] r[j]).0 == 0
    &&& q > 0
    &&& forall|k: int| 0 <= k < r.len() ==> !(q <= (#[trigger] r[k]).0 && r[k].0 < u64::MAX)
}

proof fn lemma_first_at_or_after(r: Seq<(u64, u32)>, h: u64, i: nat)
    requires
        i <= r.len(),
    ensures
        i <= first_at_or_after(r, h, i) <= r.len(),
        first_at_or_after(r, h, i) < r.len() ==> r[first_at_or_after(r, h, i)].0 >= h,
        forall|j: int| i <= j < first_at_or_after(r, h, i) ==> (#[trigger] r[j]).0 < h,
    decreases r.len() - i,
{
    if i < r.len() && r[i as int].0 < h {
        lemma_first_at_or_after(r, h, i + 1);
    }
}

proof fn lemma_dedup_first(s: Seq<u32>)
    ensures
        dedup_first(s).no_duplicates(),
        forall|x: u32| dedup_first(s).contains(x) <==> s.contains(x),
        s.len() > 0 ==> dedup_first(s).len() > 0 && dedup_first(s)[0] == s[0],
    decreases s.len(),
{
    if s.len() > 0 {
        let t = s.drop_last();
        lemma_dedup_first(t);
        let d = dedup_first(t);
        let x = s.last();
        assert forall|y: u32| s.contains(y) <==> (t.contains(y) || y == x) by {
            if s.contains(y) {
                let m = choose|m: int| 0 <= m < s.len() && s[m] == y;
                if m < t.len() {
                    assert(t[m] == y);
                }
            }
            if t.contains(y) {
                let m = choose|m: int| 0 <= m < t.len() && t[m] == y;
                assert(s[m] == y);
            }
            if y == x {
                assert(s[s.len() - 1] == y);
            }
        }
        if !d.contains(x) {
            let e = d.push(x);
            assert forall|y: u32| e.contains(y) <==> (d.contains(y) || y == x) by {
                if e.contains(y) {
                    let m = choose|m: int| 0 <= m < e.len() && e[m] == y;
                    if m < d.len() {
                        assert(d[m] == y);
                    }
                }
                if d.contains(y) {
                    let m = choose|m: int| 0 <= m < d.len() && d[m] == y;
                    assert(e[m] == y);
                }
                if y == x {
                    assert(e[d.len() as int] == y);
                }
            }
            assert forall|a: int, b: int| 0 <= a < e.len() && 0 <= b < e.len() && a != b implies e[a] != e[b] by {
                if a == d.len() {
                    assert(d.contains(e[b]));
                } else if b == d.len() {
                    assert(d.contains(e[a]));
                }
            }
        }
        if t.len() > 0 {
            assert(t[0] == s[0]);
        } else {
            assert(!d.contains(x));
            assert(s[0] == x);
        }
    }
}

proof fn lemma_dedup_first_prefix(s: Seq<u32>, k: int)
    requires
        0 <= k <= s.len(),
    ensures
        dedup_first(s.take(k)).len() <= dedup_first(s).len(),
        dedup_first(s.take(k)) == dedup_first(s).take(dedup_first(s.take(k)).len() as int),
    decreases s.len(),
{
    if k < s.len() {
        let t = s.drop_last();
        assert(s.take(k) =~= t.take(k));
        lemma_dedup_first_prefix(t, k);
        let d = dedup_first(t);
        let e = dedup_first(s);
        assert(e.take(d.len() as int) =~= d);
        let l = dedup_first(s.take(k)).len() as int;
        assert(d.take(l) =~= e.take(l));
    } else {
        assert(s.take(k) =~= s);
        assert(dedup_first(s).take(dedup_first(s).len() as int) =~= dedup_first(s));
    }
}

/// The candidate tuple of ring point `i`.
pub open spec fn candidate_at(r: Seq<(u64, u32)>, q: u64, i: int) -> (u64, u64, u32) {
    (ring_distance(q, r[i].0), r[i].0, r[i].1)
}

proof fn lemma_nearest_first(r: Seq<(u64, u32)>, q: u64, s: Seq<(u64, u64, u32)>)
    requires
        ring_sorted(r),
        by_distance(r, q, s),
        r.len() > 0,
        !wrap_tie(r, q),
    ensures
        s.len() > 0,
        s[0].2 == successor_shard(r, q),
{
    let k = first_at_or_after(r, q, 0);
    lemma_first_at_or_after(r, q, 0);
    let top: int = if k < r.len() { k } else { 0 };
    let c = candidate_at(r, q, top);
    assert(candidates(r, q).contains(c)) by {
        assert(c == (ring_distance(q, r[top].0), r[top].0, r[top].1));
    }
    assert(s.to_set().contains(c));
    let m = choose|m: int| 0 <= m < s.len() && s[m] == c;
    assert(s.to_set().contains(s[0]));
    assert(candidates(r, q).contains(s[0]));
    let j = choose|j: int| 0 <= j < r.len() && s[0] == (ring_distance(q, (#[trigger] r[j]).0), r[j].0, r[j].1);
    if m != 0 {
        assert(closer(s[0], s[m]));
        if j == top {
            assert(s[0] == s[m]);
        } else if k < r.len() {
            if r[j].0 >= q {
                assert(j > k);
                assert(r[k].0 < r[j].0);
            } else {
                assert(r[j].0 == 0 && r[k].0 == u64::MAX);
                assert forall|p: int| 0 <= p < r.len() implies !(q <= (#[trigger] r[p]).0 && r[p].0 < u64::MAX) by {
                    if p > k {
                        assert(r[k].0 < r[p].0);
                    }
                }
                assert(wrap_tie(r, q));
            }
        } else {
            assert(r[0].0 < r[j].0);
        }
    }
}

proof fn lemma_nearest_shards(r: Seq<(u64, u32)>, q: u64, s: Seq<(u64, u64, u32)>, radius: nat)
    requires
        ring_sorted(r),
        by_distance(r, q, s),
    ensures
        nearest_shards(s, radius).no_duplicates(),
        forall|i: int| 0 <= i < nearest_shards(s, radius).len() ==> ring_shards(r).contains(#[trigger] nearest_shards(s, radius)[i]),
        nearest_shards(s, radius).len() == (if radius <= ring_shards(r).len() { radius } else { ring_shards(r).len() }),
        radius >= 1 && r.len() > 0 && !wrap_tie(r, q) ==> nearest_shards(s, radius)[0] == successor_shard(r, q),
        r.len() > 0 ==> ring_shards(r).len() > 0,
{
    let sh = s.map_values(|t: (u64, u64, u32)| t.2);
    let d = dedup_first(sh);
    lemma_dedup_first(sh);
    assert forall|x: u32| sh.contains(x) <==> ring_shards(r).contains(x) by {
        if sh.contains(x) {
            let m = choose|m: int| 0 <= m < sh.len() && sh[m] == x;
            assert(s.to_set().contains(s[m]));
            assert(candidates(r, q).contains(s[m]));
            let j = choose|j: int| 0 <= j < r.len() && s[m] == (ring_distance(q, (#[trigger] r[j]).0), r[j].0, r[j].1);
            assert(r[j].1 == x);
        }
        if ring_shards(r).contains(x) {
            let j = choose|j: int| 0 <= j < r.len() && (#[trigger] r[j]).1 == x;
            let c = (ring_distance(q, r[j].0), r[j].0, r[j].1);
            assert(candidates(r, q).contains(c));
            assert(s.to_set().contains(c));
            let m = choose|m: int| 0 <= m < s.len() && s[m] == c;
            assert(sh[m] == x);
        }
    }
    assert forall|x: u32| d.to_set().contains(x) <==> ring_shards(r).contains(x) by {
        assert(d.contains(x) <==> sh.contains(x));
    }
    assert(d.to_set() =~= ring_shards(r));
    d.unique_seq_to_set();
    if r.len() > 0 {
        assert(ring_shards(r).contains(r[0].1));
        assert(d.contains(r[0].1));
    }
    let l: int = if radius <= d.len() { radius as int } else { d.len() as int };
    let n = d.take(l);
    assert forall|a: int, b: int| 0 <= a < n.len() && 0 <= b < n.len() && a != b implies n[a] != n[b] by {
        assert(n[a] == d[a] && n[b] == d[b]);
    }
    assert forall|i: int| 0 <= i < n.len() implies ring_shards(r).contains(#[trigger] n[i]) by {
        assert(n[i] == d[i]);
        assert(d.contains(d[i]));
    }
    if radius >= 1 && r.len() > 0 && !wrap_tie(r, q) {
        lemma_nearest_first(r, q, s);
        assert(sh[0] == s[0].2);
    }
}

/// Routing the hash of a node's key with radius 1 gives exactly the shard
/// that the node itself is routed to (outside the [`wrap_tie`] case).
pub proof fn lemma_radius_one_is_node_route(r: Seq<(u64, u32)>, s: Seq<(u64, u64, u32)>, id: nat)
    requires
        ring_sorted(r),
        r.len() > 0,
        by_distance(r, node_hash(id), s),
        !wrap_tie(r, node_hash(id)),
    ensures
        nearest_shards(s, 1) == seq![successor_shard(r, node_hash(id))],
{
    lemma_nearest_shards(r, node_hash(id), s, 1);
    assert(nearest_shards(s, 1) =~= seq![successor_shard(r, node_hash(id))]);
}

/// On the ring that `new(n, ..)` builds every point belongs to one of the
/// shards `0..n`: a node or a query is always routed to a shard below `n`,
/// and with no shards the ring is empty and a node goes to shard 0.
pub proof fn lemma_routes_below_shard_count(n: u32, r: Seq<(u64, u32)>, h: u64)
    requires
        ring_sorted(r),
        ring_map(r) == ring_after(3 * n as nat),
    ensures
        forall|x: u32| ring_shards(r).contains(x) ==> x < n,
        n >= 1 ==> successor_shard(r, h) < n,
        n == 0 ==> successor_shard(r, h) == 0,
{
    lemma_ring_after_below(3 * n as nat);
    assert forall|x: u32| ring_shards(r).contains(x) implies x < n by {
        let j = choose|j: int| 0 <= j < r.len() && (#[trigger] r[j]).1 == x;
        lemma_ring_entry(r, j);
        assert(ring_after(3 * n as nat).contains_key(r[j].0));
    }
    let k = first_at_or_after(r, h, 0);
    lemma_first_at_or_after(r, h, 0);
    if k < r.len() {
        assert(ring_shards(r).contains(r[k].1));
    } else if r.len() > 0 {
        assert(ring_shards(r).contains(r[0].1));
        if n == 0 {
            lemma_ring_entry(r, 0);
            assert(ring_after(0).contains_key(r[0].0));
        }
    }
}

/// A coordinator made by `new(n, ..)` routes every node id to a shard below
/// `n` (to shard 0 when `n` is 0), the same shard on every call.
pub proof fn lemma_route_node_below_shard_count(c: QueryCoordinator, node_id: u64)
    requires
        ring_sorted(c.hash_ring@),
        ring_map(c.hash_ring@) == ring_after(3 * c.shard_count as nat),
    ensures
        c.shard_count >= 1 ==> successor_shard(c.hash_ring@, node_hash(node_id as nat)) < c.shard_count,
        c.shard_count == 0 ==> successor_shard(c.hash_ring@, node_hash(node_id as nat)) == 0,
{
    lemma_routes_below_shard_count(c.shard_count, c.hash_ring@, node_hash(node_id as nat));
}

proof fn lemma_ring_after_below(t: nat)
    requires
        t <= 3 * (u32::MAX as nat),
    ensures
        forall|k: u64| #[trigger] ring_after(t).contains_key(k) ==> 3 * (ring_after(t)[k] as nat) < t,
    decreases t,
{
    if t > 0 {
        let u = (t - 1) as nat;
        lemma_ring_after_below(u);
        let v = (u / 3) as u32;
        assert(v as nat == u / 3);
        assert(3 * (u / 3) <= u);
        assert forall|k: u64| #[trigger] ring_after(t).contains_key(k) implies 3 * (ring_after(t)[k] as nat) < t by {
            if k != hash_of(replica_key(u / 3, u % 3)) {
                assert(ring_after(u).contains_key(k));
            }
        }
    }
}

proof fn lemma_ring_entry(r: Seq<(u64, u32)>, i: int)
    requires
        ring_sorted(r),
        0 <= i < r.len(),
    ensures
        ring_map(r).contains_key(r[i].0),
        ring_map(r)[r[i].0] == r[i].1,
{
    let k = r[i].0;
    assert(ring_map(r).dom().contains(k));
    let j = choose|j: int| 0 <= j < r.len() && (#[trigger] r[j]).0 == k;
    if j < i || i < j {
        assert(false);
    }
}

/// Routes queries and nodes to shards.
pub struct QueryCoordinator {
    pub shard_count: u32,
    /// Ring points `(hash, shard)`, by increasing hash.
    pub hash_ring: Vec<(u64, u32)>,
    pub shards: Vec<Graph>,
}

impl QueryCoordinator {
    /// A coordinator over `shards` whose ring holds the virtual points of
    /// shards `0..shard_count`.
    pub fn new(shard_count: u32, shards: Vec<Graph>) -> (c: Self)
        ensures
            c.shard_count == shard_count,
            c.shards == shards,
            ring_sorted(c.hash_ring@),
            ring_map(c.hash_ring@) == ring_after(3 * shard_count as nat),
    {
        let mut c = QueryCoordinator { shard_count, hash_ring: Vec::new(), shards };
        assert(ring_map(c.hash_ring@) =~= Map::<u64, u32>::empty());
        c.initialize_hash_ring();
        c
    }

    /// Places `point -> shard` on the ring, replacing the shard of an equal point.
    fn ring_insert(&mut self, point: u64, shard: u32)
        requires
            ring_sorted(old(self).hash_ring@),
        ensures
            ring_sorted(final(self).hash_ring@),
            ring_map(final(self).hash_ring@) == ring_map(old(self).hash_ring@).insert(point, shard),
            final(self).shard_count == old(self).shard_count,
            final(self).shards == old(self).shards,
    {
        let ghost o = self.hash_ring@;
        let mut i: usize = 0;
        while i < self.hash_ring.len() && self.hash_ring[i].0 < point
            invariant
                i <= self.hash_ring@.len(),
                self.hash_ring@ == o,
                forall|j: int| 0 <= j < i ==> self.hash_ring@[j].0 < point,
            decreases self.hash_ring@.len() - i,
        {
            i = i + 1;
        }
        let ghost target = ring_map(o).insert(point, shard);
        if i < self.hash_ring.len() && self.hash_ring[i].0 == point {
            self.hash_ring.set(i, (point, shard));
            proof {
                let n = self.hash_ring@;
                assert forall|a: int, b: int| 0 <= a < b < n.len() implies n[a].0 < n[b].0 by {
                    assert(n[a].0 == o[a].0);
                    assert(n[b].0 == o[b].0);
                }
                assert forall|k: u64| #![trigger target.dom().contains(k)] #![trigger ring_map(n).dom().contains(k)] target.dom().contains(k) implies ring_map(n).dom().contains(k) && ring_map(n)[k] == target[k] by {
                    if k == point {
                        lemma_ring_entry(n, i as int);
                    } else {
                        let j = choose|j: int| 0 <= j < o.len() && (#[trigger] o[j]).0 == k;
                        lemma_ring_entry(o, j);
                        assert(n[j] == o[j]);
                        lemma_ring_entry(n, j);
                    }
                }
                assert forall|k: u64| #![trigger target.dom().contains(k)] #![trigger ring_map(n).dom().contains(k)] ring_map(n).dom().contains(k) implies target.dom().contains(k) by {
                    let j = choose|j: int| 0 <= j < n.len() && (#[trigger] n[j]).0 == k;
                    if j != i {
                        assert(o[j] == n[j]);
                    }
                }
                assert(ring_map(n).dom() =~= target.dom());
                assert(ring_map(n) =~= target);
            }
        } else {
            self.hash_ring.insert(i, (point, shard));
            proof {
                let n = self.hash_ring@;
                assert(n == o.insert(i as int, (point, shard)));
                assert forall|a: int, b: int| 0 <= a < b < n.len() implies n[a].0 < n[b].0 by {
                    if b < i {
                    } else if a < i && b == i {
                    } else if a < i {
                        assert(n[b] == o[b - 1]);
                    } else if a == i {
                        assert(n[b] == o[b - 1]);
                        assert(o[i as int].0 > point);
                        assert(o[i as int].0 <= o[b - 1].0);
                    } else {
                        assert(n[a] == o[a - 1]);
                        assert(n[b] == o[b - 1]);
                    }
                }
                assert forall|k: u64| #![trigger target.dom().contains(k)] #![trigger ring_map(n).dom().contains(k)] target.dom().contains(k) implies ring_map(n).dom().contains(k) && ring_map(n)[k] == target[k] by {
                    if k == point {
                        lemma_ring_entry(n, i as int);
                    } else {
                        let j = choose|j: int| 0 <= j < o.len() && (#[trigger] o[j]).0 == k;
                        lemma_ring_entry(o, j);
                        let nj = if j < i { j } else { j + 1 };
                        assert(n[nj] == o[j]);
                        lemma_ring_entry(n, nj);
                    }
                }
                assert forall|k: u64| #![trigger target.dom().contains(k)] #![trigger ring_map(n).dom().contains(k)] ring_map(n).dom().contains(k) implies target.dom().contains(k) by {
                    let j = choose|j: int| 0 <= j < n.len() && (#[trigger] n[j]).0 == k;
                    if j < i {
                        assert(o[j] == n[j]);
                    } else if j > i {
                        assert(o[j - 1] == n[j]);
                    }
                }
                assert(ring_map(n).dom() =~= target.dom());
                assert(ring_map(n) =~= target);
            }
        }
    }

    /// Places the three virtual points of every shard, shard by shard.
    fn initialize_hash_ring(&mut self)
        requires
            ring_sorted(old(self).hash_ring@),
            ring_map(old(self).hash_ring@) == ring_after(0),
        ensures
            ring_sorted(final(self).hash_ring@),
            ring_map(final(self).hash_ring@) == ring_after(3 * old(self).shard_count as nat),
            final(self).shard_count == old(self).shard_count,
            final(self).shards == old(self).shards,
    {
        let mut shard_id: u32 = 0;
        while shard_id < self.shard_count
            invariant
                shard_id <= self.shard_count,
                self.shard_count == old(self).shard_count,
                self.shards == old(self).shards,
                ring_sorted(self.hash_ring@),
                ring_map(self.hash_ring@) == ring_after(3 * shard_id as nat),
            decreases self.shard_count - shard_id,
        {
            let mut replica: u32 = 0;
            while replica < 3
                invariant
                    replica <= 3,
                    shard_id < self.shard_count,
                    self.shard_count == old(self).shard_count,
                    self.shards == old(self).shards,
                    ring_sorted(self.hash_ring@),
                    ring_map(self.hash_ring@) == ring_after(3 * shard_id as nat + replica as nat),
                decreases 3 - replica,
            {
                let mut key: Vec<u8> = Vec::new();
                push_str(&mut key, "shard_");
                push_decimal(&mut key, shard_id as u64);
                push_str(&mut key, "_replica_");
                push_decimal(&mut key, replica as u64);
                let h = hash_bytes(key.as_slice());
                proof {
                    reveal_strlit("shard_");
                    reveal_strlit("_replica_");
                    let t = (3 * shard_id as nat + replica as nat) as nat;
                    assert(t / 3 == shard_id as nat);
                    assert(t % 3 == replica as nat);
                    vstd::string::is_ascii_spec_bytes("shard_");
                    vstd::string::is_ascii_spec_bytes("_replica_");
                    assert("shard_".spec_bytes() =~= "shard_"@.map_values(|c: char| c as u8));
                    assert("_replica_".spec_bytes() =~= "_replica_"@.map_values(|c: char| c as u8));
                    assert(key@ =~= replica_key(shard_id as nat, replica as nat));
                }
                self.ring_insert(h, shard_id);
                replica = replica + 1;
            }
            shard_id = shard_id + 1;
        }
    }

    /// Hash of a string key, as `str::hash` with a fresh `DefaultHasher`.
    fn hash_key(key: &str) -> (h: u64)
        ensures
            h == hash_of(key.spec_bytes()),
    {
        hash_bytes(key.as_bytes())
    }

    /// The `radius` shards nearest to `query_hash` on the ring: shards are
    /// ranked by the clockwise distance of their nearest point (ties in
    /// distance broken by the lower point), each listed once, nearest first.
    pub fn route_query(&self, query_hash: u64, radius: u32) -> (r: Vec<u32>)
        requires
            ring_sorted(self.hash_ring@),
        ensures
            exists|s: Seq<(u64, u64, u32)>| by_distance(self.hash_ring@, query_hash, s) && r@ == nearest_shards(s, radius as nat),
            r@.no_duplicates(),
            forall|i: int| 0 <= i < r@.len() ==> ring_shards(self.hash_ring@).contains(#[trigger] r@[i]),
            r@.len() == (if radius <= ring_shards(self.hash_ring@).len() { radius as nat } else { ring_shards(self.hash_ring@).len() }),
            radius >= 1 && self.hash_ring@.len() > 0 && !wrap_tie(self.hash_ring@, query_hash)
                ==> r@[0] == successor_shard(self.hash_ring@, query_hash),
    {
        let ghost ring = self.hash_ring@;
        let mut sorted: Vec<(u64, u64, u32)> = Vec::new();
        let mut i: usize = 0;
        while i < self.hash_ring.len()
            invariant
                i <= ring.len(),
                ring == self.hash_ring@,
                ring_sorted(ring),
                forall|a: int, b: int| 0 <= a < b < sorted@.len() ==> closer(sorted@[a], sorted@[b]),
                sorted@.to_set() == Set::new(|t: (u64, u64, u32)| exists|j: int| 0 <= j < i
                    && t == (ring_distance(query_hash, (#[trigger] ring[j]).0), ring[j].0, ring[j].1)),
            decreases ring.len() - i,
        {
            let (h, shard) = self.hash_ring[i];
            let dist: u64 = if query_hash <= h { h - query_hash } else { u64::MAX - query_hash + h };
            let item = (dist, h, shard);
            let ghost before = sorted@;
            let mut p: usize = 0;
            while p < sorted.len() && (sorted[p].0 < dist || (sorted[p].0 == dist && sorted[p].1 < h))
                invariant
                    p <= sorted@.len(),
                    sorted@ == before,
                    item == (dist, h, shard),
                    forall|j: int| 0 <= j < p ==> closer(sorted@[j], item),
                decreases sorted@.len() - p,
            {
                p = p + 1;
            }
            proof {
                // no earlier point has the same hash, so `item` is new
                assert forall|j: int| 0 <= j < before.len() implies before[j].1 != h by {
                    assert(before.to_set().contains(before[j]));
                    let k = choose|k: int| 0 <= k < i && before[j] == (ring_distance(query_hash, (#[trigger] ring[k]).0), ring[k].0, ring[k].1);
                    assert(ring[k].0 < ring[i as int].0);
                }
            }
            sorted.insert(p, item);
            proof {
                let n = sorted@;
                assert(n == before.insert(p as int, item));
                assert forall|a: int, b: int| 0 <= a < b < n.len() implies closer(n[a], n[b]) by {
                    if b < p {
                    } else if a < p && b == p {
                    } else if a < p {
                        assert(n[b] == before[b - 1]);
                        assert(closer(before[a], before[b - 1]) || a == b - 1);
                    } else if a == p {
                        assert(n[b] == before[b - 1]);
                        assert(!closer(before[p as int], item));
                        assert(before[p as int].1 != h);
                        assert(p == b - 1 || closer(before[p as int], before[b - 1]));
                    } else {
                        assert(n[a] == before[a - 1]);
                        assert(n[b] == before[b - 1]);
                    }
                }
                assert forall|t: (u64, u64, u32)| n.to_set().contains(t) <==> before.to_set().insert(item).contains(t) by {
                    if n.contains(t) {
                        let j = choose|j: int| 0 <= j < n.len() && n[j] == t;
                        if j < p {
                            assert(before[j] == t);
                        } else if j > p {
                            assert(before[j - 1] == t);
                        }
                    }
                    if before.contains(t) {
                        let j = choose|j: int| 0 <= j < before.len() && before[j] == t;
                        if j < p {
                            assert(n[j] == t);
                        } else {
                            assert(n[j + 1] == t);
                        }
                    }
                    if t == item {
                        assert(n[p as int] == t);
                    }
                }
                assert(item == (ring_distance(query_hash, ring[i as int].0), ring[i as int].0, ring[i as int].1));
                assert(n.to_set() =~= Set::new(|t: (u64, u64, u32)| exists|j: int| 0 <= j < i + 1
                    && t == (ring_distance(query_hash, (#[trigger] ring[j]).0), ring[j].0, ring[j].1)));
            }
            i = i + 1;
        }
        let ghost s = sorted@;
        proof {
            assert(s.to_set() =~= candidates(ring, query_hash));
        }
        let ghost shards = s.map_values(|t: (u64, u64, u32)| t.2);
        let mut result: Vec<u32> = Vec::new();
        let mut k: usize = 0;
        while k < sorted.len() && result.len() < radius as usize
            invariant
                k <= s.len(),
                sorted@ == s,
                shards == s.map_values(|t: (u64, u64, u32)| t.2),
                result@ == dedup_first(shards.take(k as int)),
                result@.len() <= radius,
            decreases s.len() - k,
        {
            let shard = sorted[k].2;
            proof {
                assert(shards.take(k + 1).drop_last() =~= shards.take(k as int));
                assert(shards.take(k + 1).last() == shard);
            }
            let mut present = false;
            let mut j: usize = 0;
            while j < result.len()
                invariant
                    j <= result@.len(),
                    present == result@.take(j as int).contains(shard),
                decreases result@.len() - j,
            {
                proof {
                    let t1 = result@.take(j + 1);
                    let t0 = result@.take(j as int);
                    assert(t1 =~= t0.push(result@[j as int]));
                    assert(t1.contains(shard) <==> (t0.contains(shard) || result@[j as int] == shard)) by {
                        if t1.contains(shard) {
                            let x = choose|x: int| 0 <= x < t1.len() && t1[x] == shard;
                            if x < j {
                                assert(t0[x] == shard);
                            }
                        }
                        if t0.contains(shard) {
                            let x = choose|x: int| 0 <= x < t0.len() && t0[x] == shard;
                            assert(t1[x] == shard);
                        }
                        if result@[j as int] == shard {
                            assert(t1[j as int] == shard);
                        }
                    }
                }
                if result[j] == shard {
                    present = true;
                }
                j = j + 1;
            }
            proof {
                assert(result@.take(result@.len() as int) =~= result@);
            }
            if !present {
                result.push(shard);
            }
            k = k + 1;
        }
        proof {
            lemma_dedup_first_prefix(shards, k as int);
            if k == s.len() {
                assert(shards.take(k as int) =~= shards);
                assert(dedup_first(shards).take(dedup_first(shards).len() as int) =~= dedup_first(shards));
            }
            lemma_nearest_shards(ring, query_hash, s, radius as nat);
        }
        result
    }

    /// The shard owning node `node_id`: the owner of the first ring point at
    /// or after the hash of `node_<node_id>`, else of the first point, else 0.
    pub fn route_node(&self, node_id: u64) -> (r: u32)
        ensures
            r == successor_shard(self.hash_ring@, node_hash(node_id as nat)),
    {
        let mut key: Vec<u8> = Vec::new();
        push_str(&mut key, "node_");
        push_decimal(&mut key, node_id);
        let h = hash_bytes(key.as_slice());
        proof {
            reveal_strlit("node_");
            vstd::string::is_ascii_spec_bytes("node_");
            assert("node_".spec_bytes() =~= "node_"@.map_values(|c: char| c as u8));
            assert(key@ =~= "node_"@.map_values(|c: char| c as u8) + decimal(node_id as nat));
        }
        let mut i: usize = 0;
        while i < self.hash_ring.len()
            invariant
                i <= self.hash_ring@.len(),
                h == node_hash(node_id as nat),
                first_at_or_after(self.hash_ring@, h, 0) == first_at_or_after(self.hash_ring@, h, i as nat),
            decreases self.hash_ring@.len() - i,
        {
            if self.hash_ring[i].0 >= h {
                return self.hash_ring[i].1;
            }
            i = i + 1;
        }
        if self.hash_ring.len() > 0 {
            self.hash_ring[0].1
        } else {
            0
        }
    }
}

/// Runs queries across the shards of a coordinator.
pub struct DistributedExecutor {
    pub coordinator: Arc<QueryCoordinator>,
}

impl DistributedExecutor {
    /// An executor over `coordinator`.
    pub fn new(coordinator: Arc<QueryCoordinator>) -> (e: Self)
        ensures
            e.coordinator == coordinator,
    {
        DistributedExecutor { coordinator }
    }
}

} // verus!
