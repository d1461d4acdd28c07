use graphplot::expr::{EvalCtx, SetValue};
use graphplot::graph::Graph;
use graphplot::namemap::NameMap;
use graphplot::program::{describe_set, program_lines, push_log, run_line, trim_text, LineOutcome, LOG_CAPACITY};

fn sample() -> Graph {
    let mut g1 = Graph::new(false);
    g1.add_edge("v0", "v1");
    g1.add_edge("v1", "v2");
    g1.add_vertex("v3");
    g1
}

#[test]
fn program_text_is_cut_into_statements() {
    let lines = program_lines("# Kommentar\nA = V(G1);  B = A \n\n  ;C = B");
    assert_eq!(lines, vec!["A = V(G1)".to_string(), "B = A".to_string(), "C = B".to_string()]);
    assert!(program_lines("").is_empty());
    assert!(program_lines(" ; \n # x ; ").is_empty());
}

#[test]
fn program_parts_join_by_separator() {
    let a = "A = V(G1)\n# c";
    let b = "B = A; C = B";
    let mut whole = program_lines(a);
    whole.extend(program_lines(b));
    assert_eq!(program_lines(&format!("{a};{b}")), whole);
    assert_eq!(program_lines(&format!("{a}\n{b}")), whole);
}

#[test]
fn trimming_removes_white_space_at_both_ends() {
    assert_eq!(trim_text("  a b \t\n"), "a b");
    assert_eq!(trim_text("\u{2003}x\u{2003}"), "x");
    assert_eq!(trim_text("   "), "");
}

#[test]
fn running_a_line_names_a_set() {
    let g1 = sample();
    let named: NameMap<SetValue> = NameMap::new();
    let mut graphs: NameMap<&Graph> = NameMap::new();
    graphs.insert("G1".to_string(), &g1);
    let ctx = EvalCtx { graphs, named: &named };
    match run_line("A = V(G1)", &ctx, false) {
        LineOutcome::NamedSet(name, value, msg) => {
            assert_eq!(name, "A");
            assert_eq!(value.len(), 4);
            assert_eq!(msg, "A = Knotenmenge (4 Elemente): {v0, v1, v2, v3}");
        }
        other => panic!("unexpected {:?}", other),
    }
    match run_line("G = (V(G1), E(G1))", &ctx, false) {
        LineOutcome::NewGraph(name, g, msg) => {
            assert_eq!(name, "G");
            assert_eq!(g.vertices.len(), 4);
            assert_eq!(g.edges.len(), 2);
            assert_eq!(msg, "Graph \"G\" erzeugt: |V| = 4, |E| = 2");
        }
        other => panic!("unexpected {:?}", other),
    }
    match run_line("A = V(G9)", &ctx, false) {
        LineOutcome::Failed(msg) => {
            assert!(msg.starts_with("A = V(G9)\n  Fehler: "));
        }
        other => panic!("unexpected {:?}", other),
    }
    match run_line("A = ", &ctx, false) {
        LineOutcome::Failed(msg) => assert!(msg.starts_with("A = \n  Fehler: ")),
        other => panic!("unexpected {:?}", other),
    }
}

#[test]
fn long_set_reports_are_cut() {
    let mut g = Graph::new(false);
    for i in 0..100 {
        g.add_vertex(&format!("vertex{i}"));
    }
    let v = SetValue::Vertices(g.vertices.duplicate());
    let msg = describe_set("A", &v);
    assert!(msg.starts_with("A = Knotenmenge (100 Elemente): {vertex0, vertex1, "));
    assert!(msg.ends_with("..."));
    assert_eq!(msg.chars().count(), "A = Knotenmenge (100 Elemente): ".chars().count() + 163);
}

#[test]
fn log_keeps_the_latest_entries() {
    let mut log: Vec<(bool, String)> = Vec::new();
    for i in 0..60 {
        push_log(&mut log, i % 2 == 0, format!("entry {i}"));
    }
    assert_eq!(log.len(), LOG_CAPACITY);
    assert_eq!(log[0].1, "entry 10");
    assert_eq!(log[LOG_CAPACITY - 1].1, "entry 59");
    assert!(!log[LOG_CAPACITY - 1].0);
}

#[test]
fn a_program_runs_its_statements_in_order() {
    let mut graphs: NameMap<Graph> = NameMap::new();
    graphs.insert("G1".to_string(), sample());
    let mut named: NameMap<SetValue> = NameMap::new();
    let outcomes = graphplot::program::run_program(
        "A = V(G1) - {}\nG2 = (A, E(G1)); B = V(G2) & A\nC = Nope\nD = A",
        &mut graphs,
        &mut named,
        true,
    );
    // The run stops at the first failing statement.
    assert_eq!(outcomes.len(), 4);
    assert!(matches!(&outcomes[0], LineOutcome::NamedSet(n, _, _) if n == "A"));
    match &outcomes[1] {
        LineOutcome::NewGraph(n, g, msg) => {
            assert_eq!(n, "G2");
            assert!(g.directed);
            assert_eq!(g.edges.len(), 2);
            assert_eq!(msg, "Graph \"G2\" erzeugt: |V| = 4, |E| = 2");
        }
        other => panic!("unexpected {:?}", other),
    }
    // A later statement sees the graph and the set defined before it.
    match &outcomes[2] {
        LineOutcome::NamedSet(n, v, _) => {
            assert_eq!(n, "B");
            assert_eq!(v.len(), 4);
        }
        other => panic!("unexpected {:?}", other),
    }
    assert!(matches!(&outcomes[3], LineOutcome::Failed(m) if m.starts_with("C = Nope\n  Fehler: ")));
    assert!(named.contains_key("A") && named.contains_key("B"));
    assert!(!named.contains_key("D"));
    assert!(graphs.contains_key("G2"));
}

#[test]
fn a_failed_line_reports_its_reason() {
    let mut graphs: NameMap<Graph> = NameMap::new();
    graphs.insert("G".to_string(), sample());
    let named: NameMap<SetValue> = NameMap::new();
    let ctx = EvalCtx { graphs: graphs.refs(), named: &named };
    match run_line("A = V(G9)", &ctx, false) {
        LineOutcome::Failed(msg) => assert_eq!(msg, "A = V(G9)\n  Fehler: Unbekannter Graph \"G9\""),
        other => panic!("unexpected {:?}", other),
    }
    match run_line("A = $", &ctx, false) {
        LineOutcome::Failed(msg) => assert_eq!(msg, "A = $\n  Fehler: Unerwartetes Zeichen '$'"),
        other => panic!("unexpected {:?}", other),
    }
    match run_line("H = (E(G), {})", &ctx, false) {
        LineOutcome::Failed(msg) => assert_eq!(
            msg,
            "H = (E(G), {})\n  Fehler: Der erste Teil von (V, E) muss eine Knotenmenge sein, keine Kantenmenge"
        ),
        other => panic!("unexpected {:?}", other),
    }
}
