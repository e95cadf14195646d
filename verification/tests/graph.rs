use toroidal_tql::graph::{Edge, Graph, Node};
use toroidal_tql::graph_analytics::{most_frequent, CommunityAlgorithm, GraphAnalytics};
use toroidal_tql::graph_ops::GraphOperations;
use toroidal_tql::magic_traversal::MagicTraversal;

/// Chain 1-2-3-4-5 with edges both ways.
fn create_test_graph() -> Graph {
    let mut g = Graph::new();
    for i in 1..=5 {
        g.add_node(i);
    }
    for i in 1..5 {
        g.add_edge(i, i + 1, "CONNECTS".to_string());
        g.add_edge(i + 1, i, "CONNECTS".to_string());
    }
    g
}

#[test]
fn test_connected_components() {
    let store = create_test_graph();

    let components =
        GraphAnalytics::community_detection(&store, CommunityAlgorithm::ConnectedComponents).unwrap();

    // Every node lies in one component
    assert_eq!(components.len(), 5);
    let first_component = components[0].1;
    for (_, comm) in &components {
        assert_eq!(*comm, first_component);
    }
}

#[test]
fn components_follow_edge_direction_and_node_order() {
    let mut g = Graph::new();
    for i in [10, 20, 30, 40] {
        g.add_node(i);
    }
    g.add_edge(20, 10, "E".to_string());
    g.add_edge(30, 40, "E".to_string());
    let c = GraphAnalytics::connected_components(&g).unwrap();
    // 10 opens component 0; 20 (not reached from 10) opens 1; 30 opens 2 and reaches 40
    assert_eq!(c, vec![(10, 0), (20, 1), (30, 2), (40, 2)]);
}

/// Chain 0→1→2→3→4 with a shortcut 0→2.
fn create_traversal_graph() -> Graph {
    let mut g = Graph::new();
    for i in 0..5 {
        g.add_node(i);
    }
    for (from, to) in [(0u64, 1u64), (1, 2), (2, 3), (3, 4), (0, 2)] {
        g.add_edge(from, to, "knows".to_string());
    }
    g
}

#[test]
fn test_semi_naive_bfs_chain() {
    let store = create_traversal_graph();
    let traversal = MagicTraversal::new(store);

    let result = traversal.semi_naive_bfs(&[0], 3, 0, None).unwrap();
    // 0→1→2→3 (3 hops from 0)
    assert!(result.total_visited >= 4);
}

#[test]
fn test_semi_naive_min_hops() {
    let store = create_traversal_graph();
    let traversal = MagicTraversal::new(store);

    let result = traversal.semi_naive_bfs(&[0], 3, 2, None).unwrap();
    // min_hops=2: only nodes at distance >= 2
    assert!(!result.visited.contains(&1)); // distance 1
}

#[test]
fn test_magic_set_traversal() {
    let store = create_traversal_graph();
    let traversal = MagicTraversal::new(store);

    let result = traversal.magic_set_traversal(0, 2, Some("knows")).unwrap();
    // 0→1, 0→2 (through shortcut), 1→2 (through 1-2)
    assert!(result.total_visited >= 3);
}

#[test]
fn semi_naive_levels_are_exact() {
    let traversal = MagicTraversal::new(create_traversal_graph());
    let r = traversal.semi_naive_bfs(&[0], 10, 1, None).unwrap();
    assert_eq!(r.levels.len(), 4);
    let mut l1 = r.levels[1].clone();
    l1.sort();
    assert_eq!(l1, vec![1, 2]);
    assert_eq!(r.levels[2], vec![3]);
    assert_eq!(r.levels[3], vec![4]);
    assert_eq!(r.visited, vec![1, 2, 3, 4]);
    assert_eq!(r.total_visited, 5);
}

#[test]
fn bfs_distances() {
    let g = create_traversal_graph();
    assert_eq!(GraphAnalytics::bfs_distance(&g, 0, 0).unwrap(), 0);
    assert_eq!(GraphAnalytics::bfs_distance(&g, 0, 2).unwrap(), 1);
    assert_eq!(GraphAnalytics::bfs_distance(&g, 0, 4).unwrap(), 3);
    let mut h = Graph::new();
    h.add_node(1);
    h.add_node(2);
    assert_eq!(GraphAnalytics::bfs_distance(&h, 1, 2).unwrap(), u32::MAX);
}

#[test]
fn isolated_nodes_keep_their_label() {
    let mut g = Graph::new();
    g.add_node(7);
    g.add_node(8);
    for alg in [CommunityAlgorithm::Louvain, CommunityAlgorithm::LabelPropagation] {
        let r = GraphAnalytics::community_detection(&g, alg).unwrap();
        assert_eq!(r, vec![(7, 7), (8, 8)]);
    }
}

#[test]
fn label_propagation_labels_come_from_nodes() {
    let g = create_test_graph();
    let r = GraphAnalytics::label_propagation(&g).unwrap();
    assert_eq!(r.len(), 5);
    for (i, (id, label)) in r.iter().enumerate() {
        assert_eq!(*id, (i + 1) as u64);
        assert!((1..=5).contains(label));
    }
}

#[test]
fn most_frequent_label() {
    assert_eq!(most_frequent(&[3, 1, 3, 2]), 3);
    assert_eq!(most_frequent(&[5]), 5);
    // ties go to the one seen first
    assert_eq!(most_frequent(&[4, 9, 9, 4]), 4);
}

#[test]
fn relationship_of_type() {
    let mut n = Node::new(1);
    n.edges.push(Edge { target_id: 2, relation_type: "KNOWS".to_string() });
    assert!(GraphOperations::has_relationship_of_type(&n, "KNOWS"));
    assert!(!GraphOperations::has_relationship_of_type(&n, "LIKES"));
}

#[test]
fn graph_rejects_duplicate_nodes_and_dangling_edges() {
    let mut g = Graph::new();
    assert!(g.add_node(1));
    assert!(!g.add_node(1));
    assert!(!g.add_edge(1, 2, "E".to_string()) || g.neighbors(1).is_empty());
    assert_eq!(g.node_count(), 1);
}

#[test]
fn bidirectional_bfs_on_a_cycle() {
    // 1 -> 2 -> 3 -> 4 -> 1, each edge stored on both endpoints
    let mut g = Graph::new();
    for i in 1..=4 {
        g.add_node(i);
    }
    for (a, b) in [(1u64, 2u64), (2, 3), (3, 4), (4, 1)] {
        g.add_edge(a, b, "NEXT".to_string());
        g.add_edge(b, a, "NEXT".to_string());
    }
    let r = GraphOperations::bidirectional_bfs(&g, &[1], 1, 2, "NEXT").unwrap();
    assert!(!r.is_empty());
    // the typed neighbours of the start are meeting points
    assert!(r.contains(&2));
    assert!(r.contains(&4));
    let mut s = r.clone();
    s.sort();
    s.dedup();
    assert_eq!(s.len(), r.len());
}

#[test]
fn bidirectional_bfs_needs_typed_edges_and_hops() {
    let g = create_test_graph();
    assert!(GraphOperations::bidirectional_bfs(&g, &[3], 1, 2, "OTHER").unwrap().is_empty());
    assert!(GraphOperations::bidirectional_bfs(&g, &[3], 0, 0, "CONNECTS").unwrap().is_empty());
    let r = GraphOperations::bidirectional_bfs(&g, &[3], 1, 1, "CONNECTS").unwrap();
    assert!(r.contains(&2) && r.contains(&4));
}

fn sorted(mut ps: Vec<Vec<u64>>) -> Vec<Vec<u64>> {
    ps.sort();
    ps
}

#[test]
fn shortest_paths_in_a_diamond() {
    // 1 -> 2 -> 4, 1 -> 3 -> 4, 1 -> 5 -> 6 -> 4
    let mut g = Graph::new();
    for i in 1..=6 {
        g.add_node(i);
    }
    for (a, b) in [(1, 2), (2, 4), (1, 3), (3, 4), (1, 5), (5, 6), (6, 4)] {
        g.add_edge(a, b, "E".to_string());
    }
    let paths = GraphAnalytics::find_all_shortest_paths(&g, 1, 4).unwrap();
    assert_eq!(sorted(paths), vec![vec![1, 2, 4], vec![1, 3, 4]]);
}

#[test]
fn shortest_paths_edge_cases() {
    let g = create_test_graph();
    assert_eq!(GraphAnalytics::find_all_shortest_paths(&g, 3, 3).unwrap(), vec![vec![3]]);
    assert_eq!(GraphAnalytics::find_all_shortest_paths(&g, 1, 5).unwrap(), vec![vec![1, 2, 3, 4, 5]]);
    assert_eq!(GraphAnalytics::find_all_shortest_paths(&g, 5, 2).unwrap(), vec![vec![5, 4, 3, 2]]);
    // unreachable and unknown nodes
    let mut h = Graph::new();
    h.add_node(1);
    h.add_node(2);
    assert!(GraphAnalytics::find_all_shortest_paths(&h, 1, 2).unwrap().is_empty());
    assert!(GraphAnalytics::find_all_shortest_paths(&h, 1, 99).unwrap().is_empty());
}

#[test]
fn bidirectional_bfs_meets_two_hop_nodes() {
    // R edges 1→2→3→4: from 1 within 1..2 hops, 2 and 3 (each with an R edge) are met
    let mut g = Graph::new();
    for i in [1u64, 2, 3, 4] {
        g.add_node(i);
    }
    g.add_edge(1, 2, "R".to_string());
    g.add_edge(2, 3, "R".to_string());
    g.add_edge(3, 4, "R".to_string());
    let mut r = GraphOperations::bidirectional_bfs(&g, &[1], 1, 2, "R").unwrap();
    r.sort();
    assert_eq!(r, vec![2, 3]);
    let r2 = GraphOperations::bidirectional_bfs(&g, &[1], 2, 2, "R").unwrap();
    assert!(r2.contains(&3));
}

#[test]
fn bidirectional_bfs_counts_hops_along_shortest_walks() {
    // R edges 1→2→3→4→5→6 and 1→3: node 4 lies two hops out (1→3→4) although
    // the walk 1→2→3→4 has three; with exactly three hops only 5 is met
    let mut g = Graph::new();
    for i in [3u64, 1, 2, 4, 5, 6] {
        g.add_node(i);
    }
    for (a, b) in [(1u64, 2u64), (1, 3), (2, 3), (3, 4), (4, 5), (5, 6)] {
        g.add_edge(a, b, "R".to_string());
    }
    let r = GraphOperations::bidirectional_bfs(&g, &[1], 3, 3, "R").unwrap();
    assert_eq!(r, vec![5]);
}

#[test]
fn typed_traversal_follows_outgoing_edges_of_the_type() {
    let mut g = create_traversal_graph();
    g.add_edge(1, 4, "likes".to_string());
    let traversal = MagicTraversal::new(g);
    let r = traversal.magic_set_traversal(0, 2, Some("knows")).unwrap();
    let mut l1 = r.levels[1].clone();
    l1.sort();
    assert_eq!(l1, vec![1, 2]);
    assert_eq!(r.levels[2], vec![3]);
    assert_eq!(r.total_visited, 4);
    // an edge type nobody uses reaches nothing
    let none = traversal.magic_set_traversal(0, 2, Some("likes")).unwrap();
    assert_eq!(none.total_visited, 1);
}

#[test]
fn bidirectional_bfs_empty_when_hop_range_is_empty() {
    let mut g = Graph::new();
    for i in [1u64, 2, 3, 4] {
        g.add_node(i);
    }
    g.add_edge(1, 2, "R".to_string());
    g.add_edge(2, 3, "R".to_string());
    g.add_edge(3, 4, "R".to_string());
    assert!(GraphOperations::bidirectional_bfs(&g, &[1], 2, 1, "R").unwrap().is_empty());
    // with exactly one hop only the direct typed neighbour, or a start reached back, is met
    let r = GraphOperations::bidirectional_bfs(&g, &[1], 1, 1, "R").unwrap();
    assert!(r.contains(&2));
    assert!(!r.contains(&3));
}

#[test]
fn label_propagation_updates_in_node_order() {
    // 1 ⇄ 2 and 3 → 1: node 1 takes 2's label first, then 2 and 3 take it from 1
    let mut g = Graph::new();
    for i in [1u64, 2, 3] {
        g.add_node(i);
    }
    g.add_edge(1, 2, "E".to_string());
    g.add_edge(2, 1, "E".to_string());
    g.add_edge(3, 1, "E".to_string());
    assert_eq!(GraphAnalytics::label_propagation(&g).unwrap(), vec![(1, 2), (2, 2), (3, 2)]);
    assert_eq!(GraphAnalytics::louvain(&g).unwrap(), vec![(1, 2), (2, 2), (3, 2)]);
    assert_eq!(GraphAnalytics::propagate_labels(&g, 0), vec![(1, 1), (2, 2), (3, 3)]);
    // a tie goes to the label seen first among the neighbours
    let mut h = Graph::new();
    for i in [1u64, 2, 3] {
        h.add_node(i);
    }
    h.add_edge(1, 3, "E".to_string());
    h.add_edge(1, 2, "E".to_string());
    assert_eq!(GraphAnalytics::propagate_labels(&h, 1), vec![(1, 3), (2, 2), (3, 3)]);
}
