use graphplot::graph::{draw_count, flips_from_draws, Graph};
use graphplot::ordset::OrdSet;

fn g(directed: bool, verts: &[&str], edges: &[(&str, &str)]) -> Graph {
    let mut g = Graph::new(directed);
    for v in verts {
        g.add_vertex(v);
    }
    for (a, b) in edges {
        g.add_edge(a, b);
    }
    g
}

fn names(items: &[&str]) -> Vec<String> {
    items.iter().map(|s| s.to_string()).collect()
}

fn pair(a: &str, b: &str) -> (String, String) {
    (a.to_string(), b.to_string())
}

#[test]
fn undirected_edge_normalization() {
    let mut graph = Graph::new(false);
    graph.add_edge("b", "a");
    assert!(graph.has_edge("a", "b"));
    assert!(graph.has_edge("b", "a"));
    assert_eq!(graph.edges.len(), 1);
}

#[test]
fn no_self_loops() {
    let mut graph = Graph::new(true);
    graph.add_edge("a", "a");
    assert!(graph.edges.is_empty());
}

#[test]
fn union_combines_vertices_and_edges() {
    let a = g(false, &["a", "b"], &[("a", "b")]);
    let b = g(false, &["b", "c"], &[("b", "c")]);
    let u = Graph::union(&a, &b, false);
    assert_eq!(u.vertices.to_vec(), names(&["a", "b", "c"]));
    assert!(u.has_edge("a", "b"));
    assert!(u.has_edge("b", "c"));
    assert_eq!(u.edges.len(), 2);
}

#[test]
fn intersection_keeps_only_shared_edges() {
    let a = g(false, &["a", "b", "c"], &[("a", "b"), ("b", "c")]);
    let b = g(false, &["a", "b", "c"], &[("a", "b")]);
    let i = Graph::intersection(&a, &b, false);
    assert!(i.has_edge("a", "b"));
    assert!(!i.has_edge("b", "c"));
}

#[test]
fn vertex_difference_drops_dangling_edges() {
    let a = g(false, &["a", "b", "c"], &[("a", "b"), ("b", "c")]);
    let b = g(false, &["c"], &[]);
    let d = Graph::difference(&a, &b, false);
    assert_eq!(d.vertices.to_vec(), names(&["a", "b"]));
    assert!(d.has_edge("a", "b"));
    assert!(!d.has_edge("b", "c"));
}

#[test]
fn symmetric_difference_is_self_inverse() {
    let a = g(false, &["a", "b"], &[("a", "b")]);
    let b = g(false, &["b", "c"], &[("b", "c")]);
    let sd1 = Graph::symmetric_difference(&a, &b, false);
    let sd2 = Graph::symmetric_difference(&b, &a, false);
    assert_eq!(sd1.vertices.to_vec(), sd2.vertices.to_vec());
    assert_eq!(sd1.edges.to_vec(), sd2.edges.to_vec());
    assert!(sd1.vertices.contains(&"a".to_string()));
    assert!(sd1.vertices.contains(&"c".to_string()));
    assert!(!sd1.vertices.contains(&"b".to_string()));
}

#[test]
fn complement_undirected() {
    let a = g(false, &["a", "b", "c"], &[("a", "b")]);
    let c = Graph::complement(&a);
    assert!(!c.has_edge("a", "b"));
    assert!(c.has_edge("a", "c"));
    assert!(c.has_edge("b", "c"));
    assert_eq!(c.edges.len(), 2);
}

#[test]
fn induced_subgraph_restricts_edges() {
    let a = g(false, &["a", "b", "c"], &[("a", "b"), ("b", "c"), ("a", "c")]);
    let mut subset: OrdSet<String> = OrdSet::new();
    subset.insert("a".to_string());
    subset.insert("b".to_string());
    let sub = Graph::induced_subgraph(&a, &subset);
    assert_eq!(sub.vertices.len(), 2);
    assert!(sub.has_edge("a", "b"));
    assert!(!sub.has_edge("b", "c"));
    assert!(!sub.has_edge("a", "c"));
}

#[test]
fn directed_undirected_roundtrip_collapses_bidirectional_edges() {
    let mut directed = Graph::new(true);
    directed.add_edge("a", "b");
    directed.add_edge("b", "a");
    let undirected = Graph::with_directed(&directed, false);
    assert_eq!(undirected.edges.len(), 1);
    assert!(undirected.has_edge("a", "b"));
}

/// The coins of a random graph, drawn one after the other as the graph
/// reads them.
fn flip_coins(directed: bool, n: usize, p: f64, rng: &mut impl rand::Rng) -> Vec<Vec<bool>> {
    let count = draw_count(directed, n).unwrap();
    let draws: Vec<bool> = (0..count).map(|_| rng.gen_bool(p)).collect();
    flips_from_draws(directed, n, &draws)
}

#[test]
fn random_graph_respects_vertex_count_and_no_self_loops() {
    let mut rng = rand::thread_rng();
    let flips = flip_coins(true, 12, 0.3, &mut rng);
    let graph = Graph::random(true, 12, &flips);
    assert_eq!(graph.vertices.len(), 12);
    for (a, b) in graph.edges.to_vec() {
        assert_ne!(a, b);
    }
}

#[test]
fn random_graph_takes_the_edges_whose_coin_came_up() {
    let mut flips = vec![vec![false; 3]; 3];
    flips[0][1] = true;
    flips[2][1] = true;
    flips[1][0] = false;
    let directed = Graph::random(true, 3, &flips);
    assert_eq!(directed.vertices.to_vec(), names(&["v0", "v1", "v2"]));
    assert_eq!(directed.edges.to_vec(), vec![pair("v0", "v1"), pair("v2", "v1")]);
    // Undirected graphs read only the coins with i < j.
    let undirected = Graph::random(false, 3, &flips);
    assert_eq!(undirected.edges.to_vec(), vec![pair("v0", "v1")]);
}

#[test]
fn random_graph_labels_sort_as_text() {
    let mut flips = vec![vec![false; 11]; 11];
    flips[2][10] = true;
    let g = Graph::random(false, 11, &flips);
    assert_eq!(g.vertices.len(), 11);
    // "v10" sorts before "v2", so the stored undirected edge starts with it.
    assert_eq!(g.edges.to_vec(), vec![pair("v10", "v2")]);
    assert!(g.has_edge("v2", "v10"));
}

#[test]
fn random_graph_with_all_coins_true_is_complete() {
    let flips = vec![vec![true; 4]; 4];
    assert_eq!(Graph::random(false, 4, &flips).edges.len(), 6);
    assert_eq!(Graph::random(true, 4, &flips).edges.len(), 12);
    assert_eq!(Graph::random(true, 0, &Vec::new()).vertices.len(), 0);
}

#[test]
fn fresh_label_skips_used_labels() {
    let mut graph = Graph::new(false);
    assert_eq!(graph.fresh_label(), "v0");
    graph.add_vertex("v0");
    graph.add_vertex("x");
    // Two vertices: the search starts at v2.
    assert_eq!(graph.fresh_label(), "v2");
    graph.add_vertex("v2");
    graph.add_vertex("v3");
    // Four vertices: v4 is free.
    assert_eq!(graph.fresh_label(), "v4");
    let mut full = Graph::new(false);
    full.add_vertex("v1");
    full.add_vertex("v2");
    assert_eq!(full.fresh_label(), "v3");
}

#[test]
fn remove_vertex_removes_its_edges() {
    let mut graph = g(true, &["a", "b", "c"], &[("a", "b"), ("b", "c"), ("c", "a")]);
    graph.remove_vertex("b");
    assert_eq!(graph.vertices.to_vec(), names(&["a", "c"]));
    assert_eq!(graph.edges.to_vec(), vec![pair("c", "a")]);
    // Removing an edge in an undirected graph works from either end.
    let mut u = g(false, &[], &[("a", "b")]);
    u.remove_edge("b", "a");
    assert!(u.edges.is_empty());
    assert_eq!(u.vertices.len(), 2);
}

#[test]
fn add_edge_adds_missing_endpoints() {
    let mut graph = Graph::new(true);
    graph.add_edge("x", "y");
    assert_eq!(graph.vertices.to_vec(), names(&["x", "y"]));
    assert!(graph.has_edge("x", "y"));
    assert!(!graph.has_edge("y", "x"));
}

#[test]
fn edges_as_directed_and_undirected() {
    let u = g(false, &[], &[("a", "b")]);
    assert_eq!(u.edges_as_directed().to_vec(), vec![pair("a", "b"), pair("b", "a")]);
    let d = g(true, &[], &[("b", "a"), ("a", "c")]);
    assert_eq!(d.edges_as_undirected().to_vec(), vec![pair("a", "b"), pair("a", "c")]);
    assert_eq!(d.edges_as_directed().to_vec(), vec![pair("a", "c"), pair("b", "a")]);
}

#[test]
fn operations_convert_to_the_chosen_mode() {
    let u = g(false, &[], &[("a", "b")]);
    let d = g(true, &[], &[("b", "a")]);
    // In directed mode the undirected edge stands for both directions.
    let both = Graph::intersection(&u, &d, true);
    assert_eq!(both.edges.to_vec(), vec![pair("b", "a")]);
    assert!(both.directed);
    let rest = Graph::edge_difference(&u, &d, true);
    assert_eq!(rest.edges.to_vec(), vec![pair("a", "b")]);
    assert_eq!(rest.vertices.to_vec(), names(&["a", "b"]));
    // In undirected mode the directed edge collapses onto the undirected one.
    assert_eq!(Graph::union(&u, &d, false).edges.len(), 1);
}

#[test]
fn complement_directed_and_involution() {
    let a = g(true, &["a", "b", "c"], &[("a", "b")]);
    let c = Graph::complement(&a);
    assert_eq!(c.edges.len(), 5);
    assert!(!c.has_edge("a", "b"));
    assert!(c.has_edge("b", "a"));
    let back = Graph::complement(&c);
    assert_eq!(back.edges.to_vec(), a.edges.to_vec());
    assert_eq!(back.vertices.to_vec(), a.vertices.to_vec());
}

#[test]
fn symmetric_difference_twice_gives_back_the_graph() {
    let a = g(false, &["a", "b", "d"], &[("a", "b")]);
    let b = g(false, &["b", "c"], &[("b", "c")]);
    let once = Graph::symmetric_difference(&a, &b, false);
    let twice = Graph::symmetric_difference(&once, &b, false);
    assert_eq!(twice.vertices.to_vec(), a.vertices.to_vec());
    assert_eq!(twice.edges.to_vec(), a.edges.to_vec());
}

#[test]
fn induced_subgraph_on_all_vertices_is_the_graph() {
    let a = g(false, &["a", "b", "c"], &[("a", "b"), ("b", "c")]);
    let all = a.vertices.duplicate();
    let sub = Graph::induced_subgraph(&a, &all);
    assert_eq!(sub.edges.to_vec(), a.edges.to_vec());
    assert_eq!(sub.vertices.to_vec(), a.vertices.to_vec());
}

#[test]
fn with_directed_round_trip_keeps_undirected_graph() {
    let a = g(false, &["a", "b", "c", "d"], &[("b", "a"), ("c", "d")]);
    let there = Graph::with_directed(&a, true);
    assert_eq!(there.edges.len(), 4);
    let back = Graph::with_directed(&there, false);
    assert_eq!(back.edges.to_vec(), a.edges.to_vec());
    assert!(!back.directed);
}

#[test]
fn union_and_intersection_with_itself_give_the_graph() {
    let a = g(true, &["a", "b", "c"], &[("a", "b"), ("c", "b")]);
    let u = Graph::union(&a, &a, true);
    let i = Graph::intersection(&a, &a, true);
    assert_eq!(u.edges.to_vec(), a.edges.to_vec());
    assert_eq!(i.vertices.to_vec(), a.vertices.to_vec());
    assert_eq!(i.edges.to_vec(), a.edges.to_vec());
}

#[test]
fn graph_from_its_own_sets_is_the_graph() {
    let a = g(false, &["a", "b", "c", "d"], &[("b", "a"), ("c", "d")]);
    let again = Graph::assemble(false, &a.vertices, &a.edges);
    assert_eq!(again.vertices.to_vec(), a.vertices.to_vec());
    assert_eq!(again.edges.to_vec(), a.edges.to_vec());
}

#[test]
fn random_graph_draws_one_coin_per_pair_row_by_row() {
    assert_eq!(draw_count(true, 12), Some(132));
    assert_eq!(draw_count(false, 12), Some(66));
    assert_eq!(draw_count(true, 0), Some(0));
    // Directed: (0,1), (0,2), (1,0), (1,2), (2,0), (2,1).
    let flips = flips_from_draws(true, 3, &vec![true, false, false, false, false, true]);
    let g = Graph::random(true, 3, &flips);
    assert_eq!(g.edges.to_vec(), vec![pair("v0", "v1"), pair("v2", "v1")]);
    // Undirected: (0,1), (0,2), (1,2).
    let flips = flips_from_draws(false, 3, &vec![false, true, true]);
    let g = Graph::random(false, 3, &flips);
    assert_eq!(g.edges.to_vec(), vec![pair("v0", "v2"), pair("v1", "v2")]);
    // Equal draws give equal graphs.
    let draws = vec![true, false, true, true, false, true];
    let a = Graph::random(true, 3, &flips_from_draws(true, 3, &draws));
    let b = Graph::random(true, 3, &flips_from_draws(true, 3, &draws));
    assert_eq!(a.edges.to_vec(), b.edges.to_vec());
}
