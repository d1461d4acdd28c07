use graphplot::expr::{
    eval_statement, parse_statement, tokenize, EvalCtx, SetExpr, SetValue, Stmt, StmtResult, Tok,
};
use graphplot::graph::Graph;
use graphplot::namemap::NameMap;
use graphplot::ordset::OrdSet;

fn fixture() -> Vec<(String, Graph)> {
    let mut g1 = Graph::new(false);
    g1.add_edge("v0", "v1");
    g1.add_edge("v1", "v2");
    g1.add_vertex("v3");

    let mut g2 = Graph::new(false);
    g2.add_edge("v1", "v2");
    g2.add_edge("v2", "v4");

    vec![("G1".to_string(), g1), ("G2".to_string(), g2)]
}

fn ctx<'a>(graphs: &'a [(String, Graph)], named: &'a NameMap<SetValue>) -> EvalCtx<'a> {
    let mut m: NameMap<&'a Graph> = NameMap::new();
    for (k, v) in graphs {
        m.insert(k.clone(), v);
    }
    EvalCtx { graphs: m, named }
}

fn run(input: &str, graphs: &[(String, Graph)], named: &mut NameMap<SetValue>) {
    let stmt = parse_statement(input).expect("parse");
    let result = {
        let c = ctx(graphs, named);
        eval_statement(&stmt, &c).expect("eval")
    };
    if let StmtResult::NamedSet(name, val) = result {
        named.insert(name, val);
    } else {
        panic!("expected a set statement");
    }
}

fn names(items: &[&str]) -> Vec<String> {
    items.iter().map(|s| s.to_string()).collect()
}

fn pair(a: &str, b: &str) -> (String, String) {
    (a.to_string(), b.to_string())
}

fn vertices_of<'a>(named: &'a NameMap<SetValue>, name: &str) -> &'a OrdSet<String> {
    match named.get(name) {
        Some(SetValue::Vertices(v)) => v,
        _ => panic!("expected a vertex set"),
    }
}

fn edges_of<'a>(named: &'a NameMap<SetValue>, name: &str) -> &'a OrdSet<(String, String)> {
    match named.get(name) {
        Some(SetValue::Edges(e)) => e,
        _ => panic!("expected an edge set"),
    }
}

#[test]
fn union_of_graph_vertex_sets() {
    let graphs = fixture();
    let mut named = NameMap::new();
    run("A = V(G1) | V(G2)", &graphs, &mut named);
    let v = vertices_of(&named, "A");
    assert_eq!(v.to_vec(), names(&["v0", "v1", "v2", "v3", "v4"]));
}

#[test]
fn intersection_of_edge_sets() {
    let graphs = fixture();
    let mut named = NameMap::new();
    run("A = E(G1) & E(G2)", &graphs, &mut named);
    let e = edges_of(&named, "A");
    assert_eq!(e.len(), 1);
    assert!(e.contains(&pair("v1", "v2")));
}

#[test]
fn filter_comprehension_non_isolated_vertices() {
    let graphs = fixture();
    let mut named = NameMap::new();
    run(
        "A = { v : v in V(G1), exists u in V(G1) . (v,u) in E(G1) or (u,v) in E(G1) }",
        &graphs,
        &mut named,
    );
    let v = vertices_of(&named, "A");
    assert!(
        v.contains(&"v0".to_string())
            && v.contains(&"v1".to_string())
            && v.contains(&"v2".to_string())
    );
    assert!(!v.contains(&"v3".to_string()));
}

#[test]
fn pair_builder_all_non_edges() {
    let graphs = fixture();
    let mut named = NameMap::new();
    run(
        "A = { (u,v) : u in V(G1), v in V(G1), u != v, (u,v) notin E(G1) }",
        &graphs,
        &mut named,
    );
    let e = edges_of(&named, "A");
    assert!(e.contains(&pair("v0", "v2")));
    assert!(e.contains(&pair("v2", "v0")));
    assert!(!e.contains(&pair("v0", "v1")));
}

#[test]
fn forall_quantifier() {
    let graphs = fixture();
    let mut named = NameMap::new();
    run(
        "A = { v : v in V(G1), forall u in V(G1) . v != u or v = u }",
        &graphs,
        &mut named,
    );
    let v = vertices_of(&named, "A");
    assert_eq!(v.len(), 4);
}

#[test]
fn empty_set_literal_coerces_type() {
    let graphs = fixture();
    let mut named = NameMap::new();
    run("A = E(G1) | {}", &graphs, &mut named);
    let e = edges_of(&named, "A");
    assert_eq!(e.len(), 2);
}

#[test]
fn graph_definition_statement() {
    let graphs = fixture();
    let named = NameMap::new();
    let stmt = parse_statement("G3 = (V(G1) & V(G2), E(G1) & E(G2))").expect("parse");
    let c = ctx(&graphs, &named);
    let result = eval_statement(&stmt, &c).expect("eval");
    let StmtResult::Graph(name, verts, edges) = result else {
        panic!("expected graph def")
    };
    assert_eq!(name, "G3");
    assert!(verts.contains(&"v1".to_string()) && verts.contains(&"v2".to_string()));
    assert_eq!(edges.len(), 1);
}

#[test]
fn type_mismatch_errors() {
    let graphs = fixture();
    let named = NameMap::new();
    let stmt = parse_statement("A = V(G1) | E(G1)").unwrap();
    let c = ctx(&graphs, &named);
    assert!(eval_statement(&stmt, &c).is_err());
}

#[test]
fn unknown_name_errors() {
    let graphs = fixture();
    let named = NameMap::new();
    let stmt = parse_statement("A = Nope | V(G1)").unwrap();
    let c = ctx(&graphs, &named);
    assert!(eval_statement(&stmt, &c).is_err());
}

#[test]
fn subset_predicate_as_guard() {
    let graphs = fixture();
    let mut named = NameMap::new();
    let mut small: OrdSet<String> = OrdSet::new();
    small.insert("v1".to_string());
    small.insert("v2".to_string());
    named.insert("Small".to_string(), SetValue::Vertices(small));
    run("A = { v : v in V(G1), Small <= V(G1) }", &graphs, &mut named);
    let v = vertices_of(&named, "A");
    assert_eq!(v.len(), 4);
}

#[test]
fn chained_statements_reference_earlier_names() {
    let graphs = fixture();
    let mut named = NameMap::new();
    run("A = V(G1) - V(G2)", &graphs, &mut named);
    run("B = A | V(G2)", &graphs, &mut named);
    let b = vertices_of(&named, "B");
    assert_eq!(b.len(), 5);
}

#[test]
fn unicode_synonyms_give_the_same_tokens() {
    let ascii = tokenize("A | B & C - D ^ E").unwrap();
    let unicode = tokenize("A ∪ B ∩ C ∖ D △ E").unwrap();
    assert_eq!(format!("{:?}", ascii), format!("{:?}", unicode));
    let ascii = tokenize("x in S and y notin T or not x != y").unwrap();
    let unicode = tokenize("x ∈ S ∧ y ∉ T ∨ ¬ x ≠ y").unwrap();
    assert_eq!(format!("{:?}", ascii), format!("{:?}", unicode));
    let ascii = tokenize("forall x in empty . S <= empty").unwrap();
    let unicode = tokenize("∀ x ∈ ∅ . S ⊆ ∅").unwrap();
    assert_eq!(format!("{:?}", ascii), format!("{:?}", unicode));
}

#[test]
fn tokenizer_reads_doubled_operators_and_comments() {
    let toks = tokenize("a && b || c == d # the rest is ignored").unwrap();
    assert_eq!(toks.len(), 7);
    assert!(matches!(toks[1], Tok::And));
    assert!(matches!(toks[3], Tok::Or));
    assert!(matches!(toks[5], Tok::Eq));
    let toks = tokenize("Name_1 = x").unwrap();
    assert!(matches!(&toks[0], Tok::Ident(s) if s == "Name_1"));
    // Letters beyond ASCII are letters too.
    let toks = tokenize("Größe").unwrap();
    assert!(matches!(&toks[0], Tok::Ident(s) if s == "Größe"));
}

#[test]
fn tokenizer_rejects_stray_characters() {
    assert!(tokenize("A = $").unwrap_err().contains("Unerwartetes Zeichen '$'"));
    assert!(tokenize("A < B").unwrap_err().contains("'<' an Position 2"));
    assert!(tokenize("1abc").is_err());
}

#[test]
fn parse_errors_are_reported() {
    assert_eq!(parse_statement("").unwrap_err(), "Leere Eingabe");
    assert_eq!(parse_statement("   # nur Kommentar").unwrap_err(), "Leere Eingabe");
    assert_eq!(
        parse_statement("= V(G1)").unwrap_err(),
        "Erwarte 'Name = Ausdruck' am Zeilenanfang"
    );
    assert!(parse_statement("A = V(G1) V(G2)").unwrap_err().starts_with("Unerwartete Zeichen am Ende"));
    assert!(parse_statement("A = (V(G1), E(G1)) | B").is_err());
    assert!(parse_statement("A = V(G1) |").is_err());
}

#[test]
fn parenthesized_start_of_a_right_side() {
    // `(S)` alone is a set definition; a right side may not go on after it.
    let graphs = fixture();
    let mut named = NameMap::new();
    run("A = (V(G1))", &graphs, &mut named);
    assert_eq!(vertices_of(&named, "A").len(), 4);
    let err = parse_statement("B = (V(G1) - V(G2)) | V(G2)").unwrap_err();
    assert!(err.contains("Klammer bitte nicht an den Anfang stellen"));
    // The whole right side may stand in parentheses.
    run("C = ((V(G1) - V(G2)) | V(G2))", &graphs, &mut named);
    assert_eq!(vertices_of(&named, "C").len(), 5);
}

#[test]
fn operator_precedence() {
    // `&` binds tighter than `-` and `^`, which bind tighter than `|`.
    let graphs = fixture();
    let mut named = NameMap::new();
    run("A = V(G1) | V(G2) & {}", &graphs, &mut named);
    assert_eq!(vertices_of(&named, "A").len(), 4);
    run("B = V(G1) - V(G2) - V(G1)", &graphs, &mut named);
    assert_eq!(vertices_of(&named, "B").len(), 0);
}

#[test]
fn graph_definition_needs_a_vertex_set_first() {
    let graphs = fixture();
    let named = NameMap::new();
    let c = ctx(&graphs, &named);
    let stmt = parse_statement("G = (E(G1), E(G1))").unwrap();
    assert!(eval_statement(&stmt, &c).is_err());
    let stmt = parse_statement("G = (V(G1), V(G1))").unwrap();
    assert!(eval_statement(&stmt, &c).is_err());
    // An empty set of either kind may stand in both places.
    let stmt = parse_statement("G = ({}, {})").unwrap();
    let StmtResult::Graph(_, vs, es) = eval_statement(&stmt, &c).unwrap() else {
        panic!("expected graph def")
    };
    assert_eq!(vs.len(), 0);
    assert_eq!(es.len(), 0);
}

#[test]
fn edge_comprehension_over_an_edge_set() {
    let graphs = fixture();
    let mut named = NameMap::new();
    run("A = { e : e in E(G1), (e in E(G2)) }", &graphs, &mut named);
    assert_eq!(edges_of(&named, "A").to_vec(), vec![pair("v1", "v2")]);
    // `e in ...` at the start of a qualifier binds `e` again, which is refused.
    let stmt = parse_statement("B = { e : e in E(G1), e in E(G2) }").unwrap();
    let c = ctx(&graphs, &named);
    assert!(eval_statement(&stmt, &c).unwrap_err().contains("bereits gebunden"));
}

#[test]
fn set_value_format_kind_and_len() {
    let graphs = fixture();
    let mut named = NameMap::new();
    run("A = E(G1)", &graphs, &mut named);
    run("B = V(G2)", &graphs, &mut named);
    let a = named.get("A").unwrap();
    assert_eq!(a.kind(), "Kantenmenge");
    assert_eq!(a.len(), 2);
    assert_eq!(a.format(), "{(v0,v1), (v1,v2)}");
    let b = named.get("B").unwrap();
    assert_eq!(b.kind(), "Knotenmenge");
    assert_eq!(b.format(), "{v1, v2, v4}");
    assert_eq!(SetValue::Vertices(OrdSet::new()).format(), "{}");
}

fn eval_error(input: &str, graphs: &[(String, Graph)], named: &NameMap<SetValue>) -> String {
    let stmt = parse_statement(input).expect("parse");
    let c = ctx(graphs, named);
    eval_statement(&stmt, &c).unwrap_err()
}

#[test]
fn evaluation_errors_name_their_cause() {
    let graphs = fixture();
    let named = NameMap::new();
    assert_eq!(eval_error("A = Nope", &graphs, &named), "Unbekannte Menge \"Nope\"");
    assert_eq!(eval_error("A = V(G9)", &graphs, &named), "Unbekannter Graph \"G9\"");
    assert!(eval_error("A = V(G1) | E(G1)", &graphs, &named).starts_with("Typfehler bei '"));
    assert!(eval_error("A = { v : v in V(G1), v in E(G1) }", &graphs, &named)
        .contains("bereits gebunden"));
    assert!(eval_error("A = { v : v in V(G1), (v in E(G1)) }", &graphs, &named)
        .starts_with("Typfehler: Knoten können nicht in einer Kantenmenge enthalten sein"));
    assert_eq!(
        eval_error("A = { w : v in V(G1) }", &graphs, &named),
        "Variable \"w\" ist im Ausgabeausdruck nicht gebunden"
    );
    assert!(eval_error("A = { (e,v) : e in E(G1), v in V(G1) }", &graphs, &named)
        .contains("ist eine Kantenvariable"));
    assert_eq!(
        eval_error("G = (E(G1), {})", &graphs, &named),
        "Der erste Teil von (V, E) muss eine Knotenmenge sein, keine Kantenmenge"
    );
    assert_eq!(
        eval_error("G = ({}, V(G1))", &graphs, &named),
        "Der zweite Teil von (V, E) muss eine Kantenmenge sein, keine Knotenmenge"
    );
}

#[test]
fn comprehension_over_too_many_combinations_is_refused() {
    let mut big = Graph::new(false);
    for i in 0..60 {
        big.add_vertex(&format!("x{i}"));
    }
    let graphs = vec![("B".to_string(), big)];
    let named = NameMap::new();
    let err = eval_error("A = { u : u in V(B), v in V(B), w in V(B) }", &graphs, &named);
    assert!(err.starts_with("Ausdruck zu groß"));
    // Two binders stay well within the limit.
    let stmt = parse_statement("A = { (u,v) : u in V(B), v in V(B), u != v }").unwrap();
    let c = ctx(&graphs, &named);
    let StmtResult::NamedSet(_, SetValue::Edges(e)) = eval_statement(&stmt, &c).unwrap() else {
        panic!("expected an edge set")
    };
    assert_eq!(e.len(), 60 * 59);
}

#[test]
fn a_guard_that_filters_everything_leaves_later_binders_free() {
    // Once no combination is left, a later binder is not checked against
    // earlier ones: the result is simply empty.
    let graphs = fixture();
    let mut named = NameMap::new();
    run("A = { v : v in V(G1), v != v, v in V(G2) }", &graphs, &mut named);
    assert_eq!(vertices_of(&named, "A").len(), 0);
}

#[test]
fn empty_set_is_neutral_on_either_side() {
    let graphs = fixture();
    let mut named = NameMap::new();
    run("A = {} | V(G1)", &graphs, &mut named);
    assert_eq!(vertices_of(&named, "A").len(), 4);
    run("B = E(G1) - {}", &graphs, &mut named);
    assert_eq!(edges_of(&named, "B").to_vec(), vec![pair("v0", "v1"), pair("v1", "v2")]);
    run("C = E(G1) ^ empty", &graphs, &mut named);
    assert_eq!(edges_of(&named, "C").len(), 2);
    run("D = E(G1) & {}", &graphs, &mut named);
    assert_eq!(edges_of(&named, "D").len(), 0);
}

#[test]
fn quantifiers_over_edge_sets() {
    let graphs = fixture();
    let mut named = NameMap::new();
    // Every vertex of G2 except v4 lies on an edge of G1.
    run(
        "A = { v : v in V(G2), exists e in E(G1) . e = (v,v) or exists u in V(G1) . (u,v) = e or (v,u) = e }",
        &graphs,
        &mut named,
    );
    assert_eq!(vertices_of(&named, "A").to_vec(), names(&["v1", "v2"]));
    run("B = { v : v in V(G1), forall e in E(G2) . not (e = (v,v)) }", &graphs, &mut named);
    assert_eq!(vertices_of(&named, "B").len(), 4);
    // A filter over edges that keeps nothing gives the empty set of edges.
    run("C = { e : e in E(G1), not (e in E(G1)) }", &graphs, &mut named);
    assert_eq!(edges_of(&named, "C").len(), 0);
}

#[test]
fn a_primed_name_defines_a_graph() {
    let stmt = parse_statement("G' = (V(G1) & V(G2), E(G1) & E(G2))").expect("parse");
    let Stmt::DefineGraph(name, verts, edges) = &stmt else {
        panic!("expected a graph definition")
    };
    assert_eq!(name, "G'");
    assert!(matches!(verts, SetExpr::Intersect(a, b)
        if matches!(a.as_ref(), SetExpr::GraphVertices(g) if g == "G1")
            && matches!(b.as_ref(), SetExpr::GraphVertices(g) if g == "G2")));
    assert!(matches!(edges, SetExpr::Intersect(a, b)
        if matches!(a.as_ref(), SetExpr::GraphEdges(g) if g == "G1")
            && matches!(b.as_ref(), SetExpr::GraphEdges(g) if g == "G2")));
    let graphs = fixture();
    let named = NameMap::new();
    let c = ctx(&graphs, &named);
    let StmtResult::Graph(name, verts, edges) = eval_statement(&stmt, &c).expect("eval") else {
        panic!("expected a graph")
    };
    assert_eq!(name, "G'");
    assert_eq!(verts.to_vec(), names(&["v1", "v2"]));
    assert_eq!(edges.to_vec(), vec![pair("v1", "v2")]);
}

#[test]
fn a_primed_name_over_a_named_vertex_set() {
    let graphs = fixture();
    let mut named = NameMap::new();
    run("Kern = V(G1) & V(G2)", &graphs, &mut named);
    let stmt = parse_statement("G' = (Kern, E(G1))").expect("parse");
    let c = ctx(&graphs, &named);
    let StmtResult::Graph(name, verts, edges) = eval_statement(&stmt, &c).expect("eval") else {
        panic!("expected a graph")
    };
    assert_eq!(name, "G'");
    assert_eq!(verts.to_vec(), names(&["v1", "v2"]));
    assert_eq!(edges.len(), 2);
}

#[test]
fn apostrophes_continue_names_but_do_not_start_them() {
    let toks = tokenize("G'' = x'").unwrap();
    assert_eq!(toks.len(), 3);
    assert!(matches!(&toks[0], Tok::Ident(s) if s == "G''"));
    assert!(matches!(&toks[2], Tok::Ident(s) if s == "x'"));
    assert!(tokenize("'a").unwrap_err().contains("Unerwartetes Zeichen '''"));
}

#[test]
fn unicode_white_space_separates_tokens() {
    let toks = tokenize("A\u{3000}=\u{00A0}B\u{2028}").unwrap();
    assert_eq!(toks.len(), 3);
    assert!(matches!(&toks[0], Tok::Ident(s) if s == "A"));
    assert!(matches!(&toks[2], Tok::Ident(s) if s == "B"));
    // A zero width space has no White_Space property.
    assert!(tokenize("A\u{200B}").unwrap_err().contains("Unerwartetes Zeichen"));
}

#[test]
fn error_messages_in_full() {
    let graphs = fixture();
    let named = NameMap::new();
    assert_eq!(
        eval_error("A = V(G1) | E(G1)", &graphs, &named),
        "Typfehler bei '∪': Knotenmenge und Kantenmenge passen nicht zusammen"
    );
    assert_eq!(
        eval_error("A = E(G1) - V(G1)", &graphs, &named),
        "Typfehler bei '\\': Kantenmenge und Knotenmenge passen nicht zusammen"
    );
    assert_eq!(
        eval_error("A = { v : v in V(G1), V(G1) <= E(G1) }", &graphs, &named),
        "Typfehler bei '<=': Knotenmenge und Kantenmenge passen nicht zusammen"
    );
    assert_eq!(
        eval_error("A = { v : v in V(G1), (w in V(G1)) }", &graphs, &named),
        "Variable \"w\" ist nicht gebunden"
    );
    assert_eq!(
        eval_error("A = { v : v in V(G1), exists v in V(G2) . v = v }", &graphs, &named),
        "Variable \"v\" ist bereits gebunden"
    );
    // The left operand is evaluated first.
    assert_eq!(eval_error("A = Nope | V(G9)", &graphs, &named), "Unbekannte Menge \"Nope\"");
    assert_eq!(eval_error("A = V(G1) | V(G9)", &graphs, &named), "Unbekannter Graph \"G9\"");
    assert_eq!(
        parse_statement("A V(G1)").unwrap_err(),
        "Erwarte Eq, gefunden Some(Ident(\"V\"))"
    );
    assert_eq!(
        parse_statement("A = V(G1) V(G2)").unwrap_err(),
        "Unerwartete Zeichen am Ende: Some(Ident(\"V\"))"
    );
}

#[test]
fn names_in_messages_are_shown_as_debug_strings() {
    assert_eq!(
        parse_statement("A x\u{941}").unwrap_err(),
        "Erwarte Eq, gefunden Some(Ident(\"x\\u{941}\"))"
    );
    assert_eq!(parse_statement("A G'").unwrap_err(), "Erwarte Eq, gefunden Some(Ident(\"G'\"))");
}
