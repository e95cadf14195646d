use toroidal_tql::weighted_graph::{all_simple_paths, bfs_paths, Graph};

fn w(x: f64) -> u64 {
    x.to_bits()
}

fn sorted(mut ps: Vec<Vec<usize>>) -> Vec<Vec<usize>> {
    ps.sort();
    ps
}

#[test]
fn test_bfs_paths() {
    let mut graph = Graph::new();
    graph.add_edge(1, 2, w(1.0));
    graph.add_edge(2, 3, w(1.0));
    graph.add_edge(1, 3, w(1.0));

    let paths = bfs_paths(&graph, 1, 3, 3);
    assert!(!paths.is_empty());
    assert_eq!(sorted(paths), vec![vec![1, 2, 3], vec![1, 3]]);
}

#[test]
fn weighted_graph_neighbors_and_nodes() {
    let mut g = Graph::new();
    g.add_edge(1, 2, w(0.5));
    g.add_undirected_edge(2, 3, w(2.0));
    assert_eq!(g.get_neighbors(1), vec![(2, w(0.5))]);
    assert_eq!(g.get_neighbors(2), vec![(3, w(2.0))]);
    assert_eq!(g.get_neighbors(3), vec![(2, w(2.0))]);
    assert!(g.get_neighbors(9).is_empty());
    let mut nodes: Vec<usize> = g.nodes().iter().copied().collect();
    nodes.sort();
    assert_eq!(nodes, vec![1, 2, 3]);
}

#[test]
fn simple_paths_respect_depth_and_cycles() {
    let mut g = Graph::new();
    for (a, b) in [(1, 2), (2, 3), (3, 1), (3, 4), (2, 4), (1, 4)] {
        g.add_edge(a, b, w(1.0));
    }
    let all = sorted(all_simple_paths(&g, 1, 4, 10));
    assert_eq!(all, vec![vec![1, 2, 3, 4], vec![1, 2, 4], vec![1, 4]]);
    assert_eq!(sorted(bfs_paths(&g, 1, 4, 10)), all);
    assert_eq!(sorted(all_simple_paths(&g, 1, 4, 2)), vec![vec![1, 4]]);
    assert_eq!(sorted(bfs_paths(&g, 1, 4, 2)), vec![vec![1, 4]]);
    assert!(all_simple_paths(&g, 1, 4, 0).is_empty());
    assert_eq!(all_simple_paths(&g, 2, 2, 1), vec![vec![2]]);
    assert!(bfs_paths(&g, 4, 1, 10).is_empty());
}
