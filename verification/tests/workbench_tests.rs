use graphplot::expr::SetValue;
use graphplot::graph::Graph;
use graphplot::ordset::OrdSet;
use graphplot::workbench::{
    apply_operation, filter_result_name, handle_canvas_event, op_symbol, operation_result_name,
    rename_allowed, rename_vertex, result_set_names, set_value_to_graph, truncate, CanvasEvent,
    EditMode, OpKind,
};

fn g(directed: bool, verts: &[&str], edges: &[(&str, &str)]) -> Graph {
    let mut g = Graph::new(directed);
    for v in verts {
        g.add_vertex(v);
    }
    for (a, b) in edges {
        g.add_edge(a, b);
    }
    g
}

fn names(items: &[&str]) -> Vec<String> {
    items.iter().map(|s| s.to_string()).collect()
}

fn pair(a: &str, b: &str) -> (String, String) {
    (a.to_string(), b.to_string())
}

#[test]
fn edit_mode_labels() {
    assert_eq!(EditMode::AddVertex.label(), "Knoten hinzufügen");
    assert_eq!(EditMode::AddEdge.label(), "Kante hinzufügen");
    assert_eq!(EditMode::Move.label(), "Verschieben");
    assert_eq!(EditMode::Delete.label(), "Löschen");
}

#[test]
fn op_kind_labels_and_arity() {
    let all = OpKind::all();
    assert_eq!(all.len(), 8);
    assert_eq!(all[0], OpKind::Union);
    assert_eq!(all[7], OpKind::ConvertDirected);
    let binary: Vec<bool> = all.iter().map(|k| k.is_binary()).collect();
    assert_eq!(binary, vec![true, true, true, true, true, false, false, false]);
    assert_eq!(OpKind::Union.label(), "Vereinigung  A u B");
    assert_eq!(OpKind::Difference.label(), "Differenz  A \\ B  (Knoten + Kanten)");
    assert_eq!(OpKind::ConvertDirected.label(), "A umwandeln (gerichtet <-> ungerichtet)");
    assert_eq!(op_symbol(OpKind::EdgeDifference), "\\E");
    assert_eq!(op_symbol(OpKind::SymmetricDifference), "xor");
    assert_eq!(op_symbol(OpKind::Complement), "");
}

#[test]
fn truncate_cuts_long_texts() {
    assert_eq!(truncate("abc", 3), "abc");
    assert_eq!(truncate("abcdef", 3), "abc...");
    assert_eq!(truncate("äöüß", 2), "äö...");
    assert_eq!(truncate("", 0), "");
    assert_eq!(truncate("x", 0), "...");
}

#[test]
fn set_value_opens_as_graph() {
    let mut vs: OrdSet<String> = OrdSet::new();
    vs.insert("a".to_string());
    vs.insert("b".to_string());
    let g1 = set_value_to_graph(&SetValue::Vertices(vs), false);
    assert_eq!(g1.vertices.to_vec(), names(&["a", "b"]));
    assert!(g1.edges.is_empty());
    let mut es: OrdSet<(String, String)> = OrdSet::new();
    es.insert(pair("b", "a"));
    es.insert(pair("c", "c"));
    let g2 = set_value_to_graph(&SetValue::Edges(es.duplicate()), false);
    // The loop is left out; the undirected edge is stored smaller label first.
    assert_eq!(g2.vertices.to_vec(), names(&["a", "b"]));
    assert_eq!(g2.edges.to_vec(), vec![pair("a", "b")]);
    let g3 = set_value_to_graph(&SetValue::Edges(es), true);
    assert_eq!(g3.edges.to_vec(), vec![pair("b", "a")]);
}

#[test]
fn operations_by_kind() {
    let a = g(false, &["a", "b", "c"], &[("a", "b")]);
    let b = g(false, &["b", "c"], &[("b", "c")]);
    let none: OrdSet<String> = OrdSet::new();
    let u = apply_operation(OpKind::Union, &a, Some(&b), false, &none).unwrap();
    assert_eq!(u.edges.len(), 2);
    let e = apply_operation(OpKind::EdgeDifference, &a, Some(&b), false, &none).unwrap();
    assert_eq!(e.vertices.len(), 3);
    assert_eq!(e.edges.to_vec(), vec![pair("a", "b")]);
    let err = apply_operation(OpKind::Intersection, &a, None, false, &none).unwrap_err();
    assert_eq!(err, "Bitte Graph B auswählen.");
    let c = apply_operation(OpKind::Complement, &a, None, false, &none).unwrap();
    assert_eq!(c.edges.len(), 2);
    let d = apply_operation(OpKind::ConvertDirected, &a, None, true, &none).unwrap();
    assert!(d.directed);
    assert_eq!(d.edges.len(), 2);
    let err = apply_operation(OpKind::Induced, &a, None, false, &none).unwrap_err();
    assert_eq!(err, "Bitte mindestens einen Knoten für den Teilgraphen auswählen.");
    let mut sel: OrdSet<String> = OrdSet::new();
    sel.insert("a".to_string());
    sel.insert("b".to_string());
    let s = apply_operation(OpKind::Induced, &a, None, false, &sel).unwrap();
    assert_eq!(s.vertices.to_vec(), names(&["a", "b"]));
    assert_eq!(s.edges.len(), 1);
}

#[test]
fn operation_result_names() {
    assert_eq!(operation_result_name(OpKind::Complement, "G1", ""), "not G1");
    assert_eq!(operation_result_name(OpKind::ConvertDirected, "G1", ""), "G1'");
    assert_eq!(operation_result_name(OpKind::Induced, "G1", ""), "G1[S]");
    assert_eq!(operation_result_name(OpKind::Union, "G1", "G2"), "G1 u G2");
    assert_eq!(operation_result_name(OpKind::Difference, "G1", "G2"), "G1 \\ G2");
}

#[test]
fn two_clicks_add_an_edge() {
    let mut graph = g(true, &["a", "b"], &[]);
    let mut pending: Option<String> = None;
    let added = handle_canvas_event(
        &mut graph,
        EditMode::AddEdge,
        &mut pending,
        CanvasEvent::VertexClicked("a".to_string()),
    );
    assert!(added.is_none());
    assert_eq!(pending.as_deref(), Some("a"));
    assert!(graph.edges.is_empty());
    handle_canvas_event(
        &mut graph,
        EditMode::AddEdge,
        &mut pending,
        CanvasEvent::VertexClicked("b".to_string()),
    );
    assert!(pending.is_none());
    assert_eq!(graph.edges.to_vec(), vec![pair("a", "b")]);
}

#[test]
fn clicking_the_pending_vertex_or_the_canvas_cancels() {
    let mut graph = g(false, &["a", "b"], &[]);
    let mut pending: Option<String> = Some("a".to_string());
    handle_canvas_event(
        &mut graph,
        EditMode::AddEdge,
        &mut pending,
        CanvasEvent::VertexClicked("a".to_string()),
    );
    assert!(pending.is_none());
    assert!(graph.edges.is_empty());
    let mut pending: Option<String> = Some("a".to_string());
    handle_canvas_event(
        &mut graph,
        EditMode::AddEdge,
        &mut pending,
        CanvasEvent::BackgroundClicked(true, None),
    );
    assert!(pending.is_none());
}

#[test]
fn canvas_click_adds_a_fresh_vertex() {
    let mut graph = g(false, &["v0", "x"], &[]);
    let mut pending: Option<String> = None;
    let added = handle_canvas_event(
        &mut graph,
        EditMode::AddVertex,
        &mut pending,
        CanvasEvent::BackgroundClicked(true, None),
    );
    assert_eq!(added.as_deref(), Some("v2"));
    assert_eq!(graph.vertices.to_vec(), names(&["v0", "v2", "x"]));
    // Without a known pointer position nothing is added.
    let added = handle_canvas_event(
        &mut graph,
        EditMode::AddVertex,
        &mut pending,
        CanvasEvent::BackgroundClicked(false, None),
    );
    assert!(added.is_none());
    assert_eq!(graph.vertices.len(), 3);
    // A click on a vertex adds nothing.
    let added = handle_canvas_event(
        &mut graph,
        EditMode::AddVertex,
        &mut pending,
        CanvasEvent::VertexClicked("x".to_string()),
    );
    assert!(added.is_none());
    assert_eq!(graph.vertices.len(), 3);
}

#[test]
fn delete_mode_removes_vertices_and_edges() {
    let mut graph = g(false, &["a", "b", "c"], &[("a", "b"), ("b", "c")]);
    let mut pending: Option<String> = None;
    handle_canvas_event(
        &mut graph,
        EditMode::Delete,
        &mut pending,
        CanvasEvent::BackgroundClicked(true, Some(pair("b", "c"))),
    );
    assert_eq!(graph.edges.to_vec(), vec![pair("a", "b")]);
    handle_canvas_event(
        &mut graph,
        EditMode::Delete,
        &mut pending,
        CanvasEvent::VertexClicked("a".to_string()),
    );
    assert_eq!(graph.vertices.to_vec(), names(&["b", "c"]));
    assert!(graph.edges.is_empty());
    // Moving never changes the graph.
    handle_canvas_event(
        &mut graph,
        EditMode::Move,
        &mut pending,
        CanvasEvent::VertexClicked("b".to_string()),
    );
    assert_eq!(graph.vertices.len(), 2);
}

#[test]
fn renaming_a_vertex() {
    let mut graph = g(false, &["a", "b", "c"], &[("a", "b"), ("b", "c")]);
    assert!(!rename_vertex(&mut graph, "a", "a"));
    assert!(!rename_vertex(&mut graph, "a", ""));
    assert!(!rename_vertex(&mut graph, "a", "c"));
    assert!(rename_vertex(&mut graph, "a", "z"));
    assert_eq!(graph.vertices.to_vec(), names(&["b", "c", "z"]));
    // The undirected edge is stored again with the smaller label first.
    assert_eq!(graph.edges.to_vec(), vec![pair("b", "c"), pair("b", "z")]);
    assert!(rename_vertex(&mut graph, "z", "a"));
    assert_eq!(graph.vertices.to_vec(), names(&["a", "b", "c"]));
    assert_eq!(graph.edges.to_vec(), vec![pair("a", "b"), pair("b", "c")]);
}

#[test]
fn rename_is_allowed_for_new_names() {
    let graph = g(false, &["a", "b"], &[]);
    assert!(rename_allowed(&graph, Some("a"), "c"));
    assert!(rename_allowed(&graph, Some("a"), "a"));
    assert!(!rename_allowed(&graph, Some("a"), "b"));
    assert!(!rename_allowed(&graph, Some("a"), ""));
    assert!(!rename_allowed(&graph, None, "c"));
}

#[test]
fn filter_result_names() {
    assert_eq!(filter_result_name("  ", "Iso", "G1"), "Iso(G1)");
    assert_eq!(filter_result_name(" Kern ", "Iso", "G1"), "Kern");
    let (v, e) = result_set_names("Kern");
    assert_eq!(v, "Kern (Knoten)");
    assert_eq!(e, "Kern (Kanten)");
}

#[test]
fn degree_and_neighbors() {
    let graph = g(true, &["a", "b", "c", "d"], &[("a", "b"), ("c", "a"), ("b", "c")]);
    assert_eq!(graph.degree("a"), 2);
    assert_eq!(graph.degree("d"), 0);
    assert_eq!(graph.neighbors("a").to_vec(), names(&["b", "c"]));
    assert!(graph.neighbors("d").is_empty());
}

#[test]
fn greedy_independent_set_is_maximal_and_independent() {
    let graph = g(false, &["a", "b", "c", "d"], &[("a", "b"), ("b", "c"), ("c", "d")]);
    // a is taken, b is next to a, c is taken, d is next to c.
    assert_eq!(graph.greedy_independent_set().to_vec(), names(&["a", "c"]));
    let star = g(false, &["a", "b", "c", "d"], &[("a", "b"), ("a", "c"), ("a", "d")]);
    assert_eq!(star.greedy_independent_set().to_vec(), names(&["a"]));
    let lonely = g(true, &["x", "y"], &[]);
    assert_eq!(lonely.greedy_independent_set().to_vec(), names(&["x", "y"]));
}
