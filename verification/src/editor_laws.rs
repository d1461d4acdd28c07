//! Laws of the editor's decisions and of running programs, stated over the
//! spec functions that the functions' contracts use.
use vstd::prelude::*;
use crate::graph::{
    add_edge_view, is_fresh_label, lemma_fresh_label_exists, norm_edge, well_formed,
    EdgeView, GraphView, Label,
};
use crate::order::lemma_lex_asymmetric;
use crate::program::{
    appended_log, is_separator, lemma_split_pieces_len, program_lines_spec, program_run,
    split_pieces, statement_lines, OutcomeV, LOG_CAPACITY,
};
use crate::workbench::{
    assembled_view, canvas_new_vertex, canvas_step, rename_edge_fn, rename_label_fn, rename_view,
    renamed, CanvasEventV, EditMode,
};

verus! {

/// Adding an edge takes two clicks: on `a`, then on another vertex `b`.
pub proof fn law_two_clicks_make_an_edge(g: GraphView, a: Label, b: Label)
    requires
        a != b,
    ensures
        ({
            let (g1, p1) = canvas_step(g, EditMode::AddEdge, None, CanvasEventV::VertexClicked(a));
            let (g2, p2) = canvas_step(g1, EditMode::AddEdge, p1, CanvasEventV::VertexClicked(b));
            g2 == add_edge_view(g, a, b) && p2 is None
        }),
{
}

/// Clicking the same vertex twice while adding an edge adds nothing and
/// drops the pending vertex.
pub proof fn law_same_vertex_twice_cancels(g: GraphView, a: Label)
    ensures
        ({
            let (g1, p1) = canvas_step(g, EditMode::AddEdge, None, CanvasEventV::VertexClicked(a));
            canvas_step(g1, EditMode::AddEdge, p1, CanvasEventV::VertexClicked(a)) == (
                g,
                None::<Label>,
            )
        }),
{
}

/// A click on the empty canvas while adding vertices adds exactly one
/// vertex, one that was not there, and reports it.
pub proof fn law_click_adds_one_new_vertex(
    g: GraphView,
    pending: Option<Label>,
    near: Option<EdgeView>,
)
    requires
        g.vertices.finite(),
    ensures
        ({
            let ev = CanvasEventV::BackgroundClicked(true, near);
            let (g1, p1) = canvas_step(g, EditMode::AddVertex, pending, ev);
            &&& canvas_new_vertex(g, EditMode::AddVertex, ev) matches Some(l)
            &&& !g.vertices.contains(l)
            &&& is_fresh_label(g.vertices, l)
            &&& g1.vertices == g.vertices.insert(l)
            &&& g1.vertices.len() == g.vertices.len() + 1
            &&& g1.edges == g.edges
            &&& p1 == pending
        }),
{
    lemma_fresh_label_exists(g.vertices);
}

/// A well-formed graph is what adding its vertices and then its edges to
/// an empty graph gives: `G' = (V(G), E(G))` defines `G` again.
pub proof fn law_assemble_own_sets(g: GraphView)
    requires
        well_formed(g),
    ensures
        assembled_view(g.directed, g.vertices, g.edges) == g,
{
    let a = assembled_view(g.directed, g.vertices, g.edges);
    assert forall|x: EdgeView| #[trigger] a.edges.contains(x) <==> g.edges.contains(x) by {
        if g.edges.contains(x) {
            if !g.directed {
                lemma_lex_asymmetric(x.0, x.1);
            }
            assert(x == norm_edge(g.directed, x.0, x.1));
        }
        if a.edges.contains(x) {
            let e = choose|e: EdgeView| #[trigger]
                g.edges.contains(e) && e.0 != e.1 && x == norm_edge(g.directed, e.0, e.1);
            if !g.directed {
                lemma_lex_asymmetric(e.0, e.1);
            }
        }
    }
    assert(a.vertices =~= g.vertices);
    assert(a.edges =~= g.edges);
}

/// How an edge of a well-formed graph looks after renaming `old` to `new`.
proof fn lemma_renamed_edge_norm(g: GraphView, e: EdgeView, old: Label, new: Label)
    requires
        well_formed(g),
        g.edges.contains(e),
        !g.vertices.contains(new),
    ensures
        renamed(e.0, old, new) != renamed(e.1, old, new),
        !g.directed ==> norm_edge(false, e.1, e.0) == e,
        norm_edge(g.directed, e.0, e.1) == e,
{
    if !g.directed {
        lemma_lex_asymmetric(e.0, e.1);
    }
}

/// Renaming a vertex to a new name and back gives the graph back.
pub proof fn law_rename_round_trip(g: GraphView, a: Label, b: Label)
    requires
        well_formed(g),
        !g.vertices.contains(b),
        a != b,
    ensures
        rename_view(rename_view(g, a, b), b, a) == g,
{
    let g1 = rename_view(g, a, b);
    let g2 = rename_view(g1, b, a);
    let f = rename_label_fn(a, b);
    let fe = rename_edge_fn(a, b);
    let h = rename_label_fn(b, a);
    let he = rename_edge_fn(b, a);
    assert forall|x: Label| #[trigger] g.vertices.contains(x) implies h(f(x)) == x by {}
    // The vertices of the renamed graph are the renamed vertices.
    assert forall|y: Label| #[trigger] g1.vertices.contains(y) <==> g.vertices.map(f).contains(
        y,
    ) by {
        if g1.vertices.contains(y) && !g.vertices.map(f).contains(y) {
            let e = choose|e: EdgeView| #[trigger]
                g.edges.map(fe).contains(e) && e.0 != e.1 && (y == e.0 || y == e.1);
            let w = choose|w: EdgeView| g.edges.contains(w) && fe(w) == e;
            assert(g.vertices.contains(w.0) && g.vertices.contains(w.1));
            if y == e.0 {
                assert(g.vertices.map(f).contains(f(w.0)));
            } else {
                assert(g.vertices.map(f).contains(f(w.1)));
            }
        }
    }
    // An edge of the renamed graph comes from exactly one edge of `g`.
    assert forall|y: EdgeView| #[trigger] g1.edges.contains(y) implies exists|w: EdgeView| #[trigger]
        g.edges.contains(w) && y == norm_edge(g.directed, f(w.0), f(w.1)) && f(w.0) != f(w.1) by {
        let e = choose|e: EdgeView| #[trigger]
            g.edges.map(fe).contains(e) && e.0 != e.1 && y == norm_edge(g.directed, e.0, e.1);
        let w = choose|w: EdgeView| g.edges.contains(w) && fe(w) == e;
        assert(g.edges.contains(w) && y == norm_edge(g.directed, f(w.0), f(w.1)));
    }
    assert forall|x: Label| #[trigger] g2.vertices.contains(x) <==> g.vertices.contains(x) by {
        if g.vertices.contains(x) {
            assert(g1.vertices.contains(f(x))) by {
                assert(g.vertices.map(f).contains(f(x)));
            }
            assert(g1.vertices.map(h).contains(h(f(x))));
        }
        if g2.vertices.contains(x) {
            if g1.vertices.map(h).contains(x) {
                let y = choose|y: Label| g1.vertices.contains(y) && h(y) == x;
                let z = choose|z: Label| g.vertices.contains(z) && f(z) == y;
                assert(h(f(z)) == z);
            } else {
                let e = choose|e: EdgeView| #[trigger]
                    g1.edges.map(he).contains(e) && e.0 != e.1 && (x == e.0 || x == e.1);
                let y = choose|y: EdgeView| g1.edges.contains(y) && he(y) == e;
                let w = choose|w: EdgeView| #[trigger]
                    g.edges.contains(w) && y == norm_edge(g.directed, f(w.0), f(w.1)) && f(w.0)
                        != f(w.1);
                assert(g.vertices.contains(w.0) && g.vertices.contains(w.1));
                assert(h(f(w.0)) == w.0 && h(f(w.1)) == w.1);
            }
        }
    }
    assert forall|x: EdgeView| #[trigger] g2.edges.contains(x) <==> g.edges.contains(x) by {
        if g.edges.contains(x) {
            lemma_renamed_edge_norm(g, x, a, b);
            assert(g.vertices.contains(x.0) && g.vertices.contains(x.1));
            assert(g.edges.map(fe).contains(fe(x)));
            let y = norm_edge(g.directed, f(x.0), f(x.1));
            assert(g1.edges.contains(y));
            assert(g1.edges.map(he).contains(he(y)));
            assert(h(f(x.0)) == x.0 && h(f(x.1)) == x.1);
            assert(he(y).0 != he(y).1);
            assert(x == norm_edge(g.directed, he(y).0, he(y).1));
        }
        if g2.edges.contains(x) {
            let e = choose|e: EdgeView| #[trigger]
                g1.edges.map(he).contains(e) && e.0 != e.1 && x == norm_edge(g.directed, e.0, e.1);
            let y = choose|y: EdgeView| g1.edges.contains(y) && he(y) == e;
            let w = choose|w: EdgeView| #[trigger]
                g.edges.contains(w) && y == norm_edge(g.directed, f(w.0), f(w.1)) && f(w.0) != f(
                    w.1,
                );
            lemma_renamed_edge_norm(g, w, a, b);
            assert(g.vertices.contains(w.0) && g.vertices.contains(w.1));
            assert(h(f(w.0)) == w.0 && h(f(w.1)) == w.1);
        }
    }
    assert(g2.vertices =~= g.vertices);
    assert(g2.edges =~= g.edges);
}

/// The log keeps at most `LOG_CAPACITY` entries, and the latest entry is
/// the one appended.
pub proof fn law_log_is_bounded<T>(log: Seq<T>, entry: T)
    requires
        log.len() <= LOG_CAPACITY,
    ensures
        appended_log(log, entry).len() <= LOG_CAPACITY,
        appended_log(log, entry).last() == entry,
        appended_log(log, entry).len() == if log.len() < LOG_CAPACITY {
            log.len() + 1
        } else {
            log.len()
        },
{
}

/// Text after a separator is cut into pieces on its own.
proof fn lemma_split_after_separator(a: Seq<char>, sep: char, b: Seq<char>)
    requires
        is_separator(sep),
    ensures
        split_pieces(a + seq![sep] + b) == split_pieces(a) + split_pieces(b),
    decreases b.len(),
{
    let whole = a + seq![sep] + b;
    if b.len() == 0 {
        assert(whole.drop_last() =~= a);
        assert(split_pieces(a).push(Seq::empty()) =~= split_pieces(a) + seq![Seq::<char>::empty()]);
    } else {
        let b1 = b.drop_last();
        lemma_split_after_separator(a, sep, b1);
        lemma_split_pieces_len(b1);
        assert(whole.drop_last() =~= a + seq![sep] + b1);
        assert(whole.last() == b.last());
        let p = split_pieces(a);
        let q = split_pieces(b1);
        if is_separator(b.last()) {
            assert((p + q).push(Seq::empty()) =~= p + q.push(Seq::empty()));
        } else {
            assert((p + q).update((p + q).len() - 1, (p + q).last().push(b.last())) =~= p + q.update(
                q.len() - 1,
                q.last().push(b.last()),
            ));
        }
    }
}

/// The statements of two runs of pieces are those of the first, then those
/// of the second.
proof fn lemma_statement_lines_concat(p: Seq<Seq<char>>, q: Seq<Seq<char>>)
    ensures
        statement_lines(p + q) == statement_lines(p) + statement_lines(q),
    decreases q.len(),
{
    if q.len() == 0 {
        assert(p + q =~= p);
        assert(statement_lines(p) + Seq::<Seq<char>>::empty() =~= statement_lines(p));
    } else {
        lemma_statement_lines_concat(p, q.drop_last());
        assert((p + q).drop_last() =~= p + q.drop_last());
        assert((p + q).last() == q.last());
        let r = statement_lines(p);
        let s = statement_lines(q.drop_last());
        assert((r + s).push(crate::program::trim(q.last())) =~= r + s.push(
            crate::program::trim(q.last()),
        ));
    }
}

/// A program of two parts joined by a line break or `;` runs the
/// statements of the first part, then those of the second.
pub proof fn law_program_concatenation(a: Seq<char>, sep: char, b: Seq<char>)
    requires
        is_separator(sep),
    ensures
        program_lines_spec(a + seq![sep] + b) == program_lines_spec(a) + program_lines_spec(b),
{
    lemma_split_after_separator(a, sep, b);
    lemma_statement_lines_concat(split_pieces(a), split_pieces(b));
}

/// Running two lists of statements one after the other is running the
/// first, then the second from where the first left the graphs and named
/// sets; a failure in the first ends the run there.
pub proof fn law_program_run_in_parts(
    a: Seq<Seq<char>>,
    b: Seq<Seq<char>>,
    g: Map<Seq<char>, GraphView>,
    n: Map<Seq<char>, crate::expr::value::SetVal>,
    directed: bool,
)
    ensures
        ({
            let first = program_run(a, g, n, directed);
            let second = program_run(b, first.1, first.2, directed);
            if exists|i: int| 0 <= i < first.0.len() && #[trigger] first.0[i] is Failed {
                program_run(a + b, g, n, directed) == first
            } else {
                program_run(a + b, g, n, directed) == (first.0 + second.0, second.1, second.2)
            }
        }),
    decreases a.len(),
{
    let first = program_run(a, g, n, directed);
    if a.len() == 0 {
        assert(a + b =~= b);
        assert(Seq::<OutcomeV>::empty() + program_run(b, g, n, directed).0 =~= program_run(
            b,
            g,
            n,
            directed,
        ).0);
    } else {
        assert((a + b)[0] == a[0]);
        assert((a + b).drop_first() =~= a.drop_first() + b);
        let c = crate::expr::eval::CtxV { graphs: g, named: n };
        match crate::program::line_result(a[0], c) {
            Ok(crate::expr::eval::StmtResultV::NamedSet(name, v)) => {
                let n1 = n.insert(name, v);
                law_program_run_in_parts(a.drop_first(), b, g, n1, directed);
                let rest = program_run(a.drop_first(), g, n1, directed);
                let head = seq![
                    OutcomeV::NamedSet(name, v, crate::program::set_message(name, v)),
                ];
                assert(first.0 == head + rest.0);
                if exists|i: int| 0 <= i < first.0.len() && #[trigger] first.0[i] is Failed {
                    let i = choose|i: int| 0 <= i < first.0.len() && #[trigger] first.0[i] is Failed;
                    assert(rest.0[i - 1] is Failed);
                } else {
                    assert forall|i: int| 0 <= i < rest.0.len() implies !(#[trigger] rest.0[i] is Failed) by {
                        assert(first.0[i + 1] == rest.0[i]);
                    }
                    let second = program_run(b, rest.1, rest.2, directed);
                    assert(head + (rest.0 + second.0) =~= (head + rest.0) + second.0);
                }
            },
            Ok(crate::expr::eval::StmtResultV::Graph(name, vs, es)) => {
                let gv = assembled_view(directed, vs, es);
                let g1 = g.insert(name, gv);
                law_program_run_in_parts(a.drop_first(), b, g1, n, directed);
                let rest = program_run(a.drop_first(), g1, n, directed);
                let head = seq![
                    OutcomeV::NewGraph(name, gv, crate::program::graph_message(name, gv)),
                ];
                assert(first.0 == head + rest.0);
                if exists|i: int| 0 <= i < first.0.len() && #[trigger] first.0[i] is Failed {
                    let i = choose|i: int| 0 <= i < first.0.len() && #[trigger] first.0[i] is Failed;
                    assert(rest.0[i - 1] is Failed);
                } else {
                    assert forall|i: int| 0 <= i < rest.0.len() implies !(#[trigger] rest.0[i] is Failed) by {
                        assert(first.0[i + 1] == rest.0[i]);
                    }
                    let second = program_run(b, rest.1, rest.2, directed);
                    assert(head + (rest.0 + second.0) =~= (head + rest.0) + second.0);
                }
            },
            Err(_) => {
                assert(first.0[0] is Failed);
            },
        }
    }
}

} // verus!
