use std::sync::Arc;
use toroidal_tql::coordinator::{hash_bytes, DistributedExecutor, QueryCoordinator};
use toroidal_tql::graph::Graph;

fn coordinator(n: u32) -> QueryCoordinator {
    let shards: Vec<Graph> = (0..n).map(|_| Graph::new()).collect();
    QueryCoordinator::new(n, shards)
}

#[test]
fn ring_has_three_points_per_shard() {
    let c = coordinator(4);
    assert_eq!(c.hash_ring.len(), 12);
    for w in c.hash_ring.windows(2) {
        assert!(w[0].0 < w[1].0);
    }
}

#[test]
fn route_node_picks_a_shard() {
    let c = coordinator(4);
    for id in 0..100u64 {
        assert!(c.route_node(id) < 4);
    }
    assert_eq!(c.route_node(42), c.route_node(42));
}

#[test]
fn route_query_returns_distinct_shards() {
    let c = coordinator(4);
    let r = c.route_query(12345, 5);
    assert!(!r.is_empty());
    assert!(r.len() <= 4);
    let mut s = r.clone();
    s.sort();
    s.dedup();
    assert_eq!(s.len(), r.len());
    assert!(r.iter().all(|x| *x < 4));
    assert_eq!(c.route_query(12345, 0), Vec::<u32>::new());
    assert_eq!(c.route_query(7, 12).len(), 4);
}

#[test]
fn hash_is_deterministic() {
    assert_eq!(hash_bytes(b"node_1"), hash_bytes(b"node_1"));
    assert_ne!(hash_bytes(b"node_1"), hash_bytes(b"node_2"));
}

#[test]
fn executor_wraps_coordinator() {
    let c = Arc::new(coordinator(2));
    let e = DistributedExecutor::new(c.clone());
    assert_eq!(e.coordinator.shard_count, 2);
}

#[test]
fn route_query_fills_radius_with_distinct_shards() {
    let c = coordinator(4);
    for q in [0u64, 1, 12345, 1 << 40, u64::MAX / 3, u64::MAX - 1] {
        for radius in 0..6u32 {
            let r = c.route_query(q, radius);
            assert_eq!(r.len(), std::cmp::min(radius as usize, 4));
            let mut s = r.clone();
            s.sort();
            s.dedup();
            assert_eq!(s.len(), r.len());
        }
    }
}

#[test]
fn nearest_shard_of_a_node_key_is_its_route() {
    let c = coordinator(5);
    for id in [0u64, 1, 7, 42, 123, 9999] {
        let h = hash_bytes(format!("node_{}", id).as_bytes());
        assert_eq!(c.route_query(h, 1), vec![c.route_node(id)]);
    }
}

#[test]
fn no_shards_route_to_zero() {
    let c = coordinator(0);
    assert!(c.hash_ring.is_empty());
    assert_eq!(c.route_node(5), 0);
    assert_eq!(c.route_query(5, 3), Vec::<u32>::new());
}
