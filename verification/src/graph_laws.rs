//! Laws of the graph operations, stated over the views that the operations'
//! contracts produce.
use vstd::prelude::*;
use crate::graph::{
    add_edge_view, add_vertex_view, complement_view, difference_view, edge_difference_view, edges_in,
    has_edge_view, induced_subgraph_view, intersection_view, norm_edge, remove_edge_view,
    remove_vertex_view, swap, symmetric_difference_view, union_view, well_formed,
    with_directed_view, EdgeView, GraphView, Label, candidate_pair, label_of, label_range,
    lemma_label_of_injective, lemma_label_range_len, random_view, draw_order, draws_to_flips,
    lemma_draw_of_pair, numbered_vertices, pairs_before,
};
use crate::order::{lemma_lex_asymmetric, lemma_lex_irreflexive, lemma_lex_total, lex_le, lex_lt};

verus! {

/// In an undirected graph an edge has no direction: asking for `a`–`b` and
/// for `b`–`a` is the same question.
pub proof fn law_undirected_has_edge_symmetric(g: GraphView, a: Label, b: Label)
    requires
        !g.directed,
    ensures
        has_edge_view(g, a, b) == has_edge_view(g, b, a),
{
    lemma_lex_total(a, b);
    if lex_lt(a, b) {
        lemma_lex_asymmetric(a, b);
    }
    if lex_lt(b, a) {
        lemma_lex_asymmetric(b, a);
    }
}

/// After adding an edge between two distinct vertices the graph has it;
/// after removing an edge it does not.
pub proof fn law_add_then_has_remove_then_not(g: GraphView, a: Label, b: Label)
    requires
        a != b,
    ensures
        has_edge_view(add_edge_view(g, a, b), a, b),
        !has_edge_view(remove_edge_view(g, a, b), a, b),
{
}

/// Removing a vertex leaves no edge that touches it.
pub proof fn law_remove_vertex_leaves_no_incident_edge(g: GraphView, v: Label, e: EdgeView)
    requires
        remove_vertex_view(g, v).edges.contains(e),
    ensures
        e.0 != v && e.1 != v,
        !remove_vertex_view(g, v).vertices.contains(v),
{
}

/// What each binary operation keeps, element by element: the result is in
/// the requested mode; a vertex is in the union if it is in either graph,
/// in the intersection if in both, in the vertex difference if in the first
/// and not the second, in the symmetric difference if in exactly one, and
/// in the edge difference exactly if it is a vertex of the first graph
/// (the edge difference never adds or drops a vertex). Edges are those of
/// the operands converted to the requested mode, combined the same way,
/// except that the vertex difference keeps the edges of the first graph
/// whose two endpoints survive.
pub proof fn law_binary_operations_by_element(
    a: GraphView,
    b: GraphView,
    directed: bool,
    v: Label,
    e: EdgeView,
)
    ensures
        union_view(a, b, directed).directed == directed,
        intersection_view(a, b, directed).directed == directed,
        difference_view(a, b, directed).directed == directed,
        edge_difference_view(a, b, directed).directed == directed,
        symmetric_difference_view(a, b, directed).directed == directed,
        union_view(a, b, directed).vertices.contains(v) <==> (a.vertices.contains(v)
            || b.vertices.contains(v)),
        intersection_view(a, b, directed).vertices.contains(v) <==> (a.vertices.contains(v)
            && b.vertices.contains(v)),
        difference_view(a, b, directed).vertices.contains(v) <==> (a.vertices.contains(v)
            && !b.vertices.contains(v)),
        edge_difference_view(a, b, directed).vertices.contains(v) <==> a.vertices.contains(v),
        edge_difference_view(a, b, directed).vertices == a.vertices,
        symmetric_difference_view(a, b, directed).vertices.contains(v) <==> (a.vertices.contains(v)
            != b.vertices.contains(v)),
        union_view(a, b, directed).edges.contains(e) <==> (edges_in(a, directed).contains(e)
            || edges_in(b, directed).contains(e)),
        intersection_view(a, b, directed).edges.contains(e) <==> (edges_in(a, directed).contains(e)
            && edges_in(b, directed).contains(e)),
        difference_view(a, b, directed).edges.contains(e) <==> (edges_in(a, directed).contains(e)
            && a.vertices.contains(e.0) && !b.vertices.contains(e.0) && a.vertices.contains(e.1)
            && !b.vertices.contains(e.1)),
        edge_difference_view(a, b, directed).edges.contains(e) <==> (edges_in(a, directed).contains(
            e,
        ) && !edges_in(b, directed).contains(e)),
        symmetric_difference_view(a, b, directed).edges.contains(e) <==> (edges_in(
            a,
            directed,
        ).contains(e) != edges_in(b, directed).contains(e)),
{
}

/// Union, intersection and symmetric difference do not depend on the order
/// of their operands.
pub proof fn law_commutative(a: GraphView, b: GraphView, directed: bool)
    ensures
        union_view(a, b, directed) == union_view(b, a, directed),
        intersection_view(a, b, directed) == intersection_view(b, a, directed),
        symmetric_difference_view(a, b, directed) == symmetric_difference_view(b, a, directed),
{
    assert(union_view(a, b, directed).vertices =~= union_view(b, a, directed).vertices);
    assert(union_view(a, b, directed).edges =~= union_view(b, a, directed).edges);
    assert(intersection_view(a, b, directed).vertices =~= intersection_view(
        b,
        a,
        directed,
    ).vertices);
    assert(intersection_view(a, b, directed).edges =~= intersection_view(
        b,
        a,
        directed,
    ).edges);
    assert(symmetric_difference_view(a, b, directed).vertices =~= symmetric_difference_view(
        b,
        a,
        directed,
    ).vertices);
    assert(symmetric_difference_view(a, b, directed).edges =~= symmetric_difference_view(
        b,
        a,
        directed,
    ).edges);
}

/// A graph that already is in the requested mode reads its edge set
/// unchanged.
pub proof fn lemma_edges_in_own_mode(g: GraphView)
    ensures
        edges_in(g, g.directed) == g.edges,
{
}

/// Taking the symmetric difference with the same graph twice gives back the
/// first graph, read in the requested mode.
pub proof fn law_symmetric_difference_self_inverse(a: GraphView, b: GraphView, directed: bool)
    ensures
        symmetric_difference_view(symmetric_difference_view(a, b, directed), b, directed)
            == with_directed_view(a, directed),
{
    let s = symmetric_difference_view(a, b, directed);
    lemma_edges_in_own_mode(s);
    assert(symmetric_difference_view(s, b, directed).vertices =~= a.vertices);
    assert(symmetric_difference_view(s, b, directed).edges =~= edges_in(a, directed));
}

/// Combining a graph with itself gives the graph back.
pub proof fn law_union_intersection_idempotent(g: GraphView)
    ensures
        union_view(g, g, g.directed) == g,
        intersection_view(g, g, g.directed) == g,
{
    lemma_edges_in_own_mode(g);
    assert(union_view(g, g, g.directed).vertices =~= g.vertices);
    assert(union_view(g, g, g.directed).edges =~= g.edges);
    assert(intersection_view(g, g, g.directed).vertices =~= g.vertices);
    assert(intersection_view(g, g, g.directed).edges =~= g.edges);
}

/// The vertex difference never leaves an edge dangling: every edge of the
/// result joins two vertices of the result.
pub proof fn law_difference_has_no_dangling_edges(
    a: GraphView,
    b: GraphView,
    directed: bool,
    e: EdgeView,
)
    requires
        difference_view(a, b, directed).edges.contains(e),
    ensures
        difference_view(a, b, directed).vertices.contains(e.0),
        difference_view(a, b, directed).vertices.contains(e.1),
        !b.vertices.contains(e.0),
        !b.vertices.contains(e.1),
{
}

/// Turning a well-formed undirected graph into a directed one and back
/// gives the same graph: each edge becomes two opposite directed edges,
/// which collapse into that same edge again.
pub proof fn law_direction_roundtrip(g: GraphView)
    requires
        well_formed(g),
        !g.directed,
    ensures
        with_directed_view(with_directed_view(g, true), false) == g,
{
    let d = with_directed_view(g, true);
    let u = with_directed_view(d, false);
    assert forall|e: EdgeView| #[trigger] u.edges.contains(e) <==> g.edges.contains(e) by {
        if g.edges.contains(e) {
            assert(lex_lt(e.0, e.1));
            assert(d.edges.contains(e));
        }
        if u.edges.contains(e) {
            assert(lex_le(e.0, e.1));
            if !g.edges.contains(e) {
                assert(g.edges.contains(swap(e)));
                assert(lex_lt(e.1, e.0));
                if e.0 == e.1 {
                    lemma_lex_irreflexive(e.0);
                } else {
                    lemma_lex_asymmetric(e.1, e.0);
                }
            }
        }
    }
    assert(u.edges =~= g.edges);
}

/// The complement of the complement of a well-formed graph is the graph.
pub proof fn law_complement_involution(g: GraphView)
    requires
        well_formed(g),
    ensures
        complement_view(complement_view(g)) == g,
{
    let c = complement_view(complement_view(g));
    assert forall|e: EdgeView| #[trigger] c.edges.contains(e) <==> g.edges.contains(e) by {
        if g.edges.contains(e) {
            assert(g.vertices.contains(e.0) && g.vertices.contains(e.1));
        }
    }
    assert(c.edges =~= g.edges);
}

/// Taking the subgraph induced by all vertices of a well-formed graph
/// changes nothing.
pub proof fn law_induced_by_all_vertices(g: GraphView)
    requires
        well_formed(g),
    ensures
        induced_subgraph_view(g, g.vertices) == g,
{
    let s = induced_subgraph_view(g, g.vertices);
    assert(s.vertices =~= g.vertices);
    assert(s.edges =~= g.edges);
}

proof fn lemma_edges_in_well_formed(g: GraphView, directed: bool)
    requires
        well_formed(g),
    ensures
        forall|e: EdgeView| #[trigger]
            edges_in(g, directed).contains(e) ==> g.vertices.contains(e.0) && g.vertices.contains(
                e.1,
            ) && e.0 != e.1,
        !directed ==> forall|e: EdgeView| #[trigger]
            edges_in(g, directed).contains(e) ==> lex_lt(e.0, e.1),
{
    assert forall|e: EdgeView| #[trigger] edges_in(g, directed).contains(e) implies g.vertices.contains(
        e.0,
    ) && g.vertices.contains(e.1) && e.0 != e.1 by {
        if !g.edges.contains(e) {
            assert(g.edges.contains(swap(e)));
        }
    }
    if !directed {
        assert forall|e: EdgeView| #[trigger] edges_in(g, directed).contains(e) implies lex_lt(
            e.0,
            e.1,
        ) by {
            if !g.edges.contains(e) {
                assert(g.edges.contains(swap(e)));
            }
        }
    }
}

/// Every operation but the symmetric difference turns well-formed graphs
/// into a well-formed graph.
pub proof fn law_operations_keep_well_formed(
    a: GraphView,
    b: GraphView,
    directed: bool,
    subset: Set<Label>,
    x: Label,
    y: Label,
)
    requires
        well_formed(a),
        well_formed(b),
    ensures
        well_formed(union_view(a, b, directed)),
        well_formed(intersection_view(a, b, directed)),
        well_formed(difference_view(a, b, directed)),
        well_formed(edge_difference_view(a, b, directed)),
        well_formed(induced_subgraph_view(a, subset)),
        well_formed(complement_view(a)),
        well_formed(with_directed_view(a, directed)),
        well_formed(add_vertex_view(a, x)),
        well_formed(remove_vertex_view(a, x)),
        well_formed(add_edge_view(a, x, y)),
        well_formed(remove_edge_view(a, x, y)),
{
    lemma_edges_in_well_formed(a, directed);
    lemma_edges_in_well_formed(b, directed);
    let ae = add_edge_view(a, x, y);
    if x != y {
        assert forall|e: EdgeView| #[trigger] ae.edges.contains(e) implies ae.vertices.contains(
            e.0,
        ) && ae.vertices.contains(e.1) && e.0 != e.1 && (!ae.directed ==> lex_lt(e.0, e.1)) by {
            if e == norm_edge(a.directed, x, y) && !a.directed {
                lemma_lex_total(x, y);
            }
        }
    }
    let c = complement_view(a);
    assert forall|e: EdgeView| #[trigger] c.edges.contains(e) implies e.0 != e.1 by {
        if !a.directed {
            lemma_lex_irreflexive(e.0);
        }
    }
}

/// A random graph on `n` vertices is well-formed (no self loops, no edge
/// leaving its vertex set, undirected edges stored smaller label first) and
/// has exactly `n` vertices, whatever the coins showed.
pub proof fn law_random_graph_shape(directed: bool, n: nat, flips: Seq<Seq<bool>>)
    requires
        flips.len() == n,
        forall|i: int| 0 <= i < n ==> (#[trigger] flips[i]).len() == n,
    ensures
        well_formed(random_view(directed, n as int, flips)),
        random_view(directed, n as int, flips).vertices.finite(),
        random_view(directed, n as int, flips).vertices.len() == n,
{
    let g = random_view(directed, n as int, flips);
    assert(g.vertices =~= label_range(0, n)) by {
        assert forall|l: Label| #[trigger] g.vertices.contains(l) implies label_range(0, n).contains(
            l,
        ) by {
            let i = choose|i: nat| i < n && l == label_of(i);
            assert(label_of(i) == l);
        }
    }
    lemma_label_range_len(0, n);
    assert forall|e: EdgeView| #[trigger] g.edges.contains(e) implies g.vertices.contains(e.0)
        && g.vertices.contains(e.1) && e.0 != e.1 && (!directed ==> lex_lt(e.0, e.1)) by {
        let (i, j) = choose|i: nat, j: nat|
            #![trigger label_of(i), label_of(j)]
            (i < n || (i == n && j < 0)) && candidate_pair(directed, n as int, i as int, j as int)
                && flips[i as int][j as int] && e == norm_edge(directed, label_of(i), label_of(j));
        if label_of(i) == label_of(j) {
            lemma_label_of_injective(i, j);
        }
        lemma_lex_total(label_of(i), label_of(j));
        assert(g.vertices.contains(label_of(i)));
        assert(g.vertices.contains(label_of(j)));
    }
}

/// A random graph built from coins drawn one after the other: its
/// vertices are `v0`, ..., `v{n-1}`; the candidate pairs `(i, j)` (those
/// with `j != i` when directed, `j > i` when not) are tried row by row,
/// and within a row by column, each with the next draw; the pair becomes
/// the edge `(v_i, v_j)`, stored smaller label first when undirected,
/// exactly where its draw came up `true`; and no edge joins a vertex to
/// itself.
pub proof fn law_random_graph_from_draws(directed: bool, n: nat, draws: Seq<bool>)
    requires
        draws.len() == draw_order(directed, n as int).len(),
    ensures
        ({
            let g = random_view(directed, n as int, draws_to_flips(directed, n as int, draws));
            &&& g.directed == directed
            &&& g.vertices == numbered_vertices(n as int)
            &&& forall|i: int, j: int|
                candidate_pair(directed, n as int, i, j) ==> draw_order(directed, n as int)[
                #[trigger] pairs_before(directed, n as int, i, j).len() as int] == (i, j)
            &&& forall|e: EdgeView|
                #[trigger] g.edges.contains(e) <==> exists|i: nat, j: nat|
                    #![trigger label_of(i), label_of(j)]
                    candidate_pair(directed, n as int, i as int, j as int) && draws[pairs_before(
                        directed,
                        n as int,
                        i as int,
                        j as int,
                    ).len() as int] && e == norm_edge(directed, label_of(i), label_of(j))
            &&& forall|e: EdgeView| #[trigger] g.edges.contains(e) ==> e.0 != e.1
        }),
{
    let flips = draws_to_flips(directed, n as int, draws);
    let g = random_view(directed, n as int, flips);
    law_random_graph_shape(directed, n, flips);
    assert forall|i: int, j: int| candidate_pair(directed, n as int, i, j) implies draw_order(
        directed,
        n as int,
    )[#[trigger] pairs_before(directed, n as int, i, j).len() as int] == (i, j) by {
        lemma_draw_of_pair(directed, n as int, i, j);
    }
    assert forall|e: EdgeView| #[trigger] g.edges.contains(e) <==> exists|i: nat, j: nat|
        #![trigger label_of(i), label_of(j)]
        candidate_pair(directed, n as int, i as int, j as int) && draws[pairs_before(
            directed,
            n as int,
            i as int,
            j as int,
        ).len() as int] && e == norm_edge(directed, label_of(i), label_of(j)) by {
        if g.edges.contains(e) {
            let (i, j) = choose|i: nat, j: nat|
                #![trigger label_of(i), label_of(j)]
                (i < n || (i == n && j < 0)) && candidate_pair(directed, n as int, i as int, j as int)
                    && flips[i as int][j as int] && e == norm_edge(directed, label_of(i), label_of(j));
            assert(label_of(i) == label_of(i) && label_of(j) == label_of(j));
        } else {
            if exists|i: nat, j: nat|
                #![trigger label_of(i), label_of(j)]
                candidate_pair(directed, n as int, i as int, j as int) && draws[pairs_before(
                    directed,
                    n as int,
                    i as int,
                    j as int,
                ).len() as int] && e == norm_edge(directed, label_of(i), label_of(j)) {
                let (i, j) = choose|i: nat, j: nat|
                    #![trigger label_of(i), label_of(j)]
                    candidate_pair(directed, n as int, i as int, j as int) && draws[pairs_before(
                        directed,
                        n as int,
                        i as int,
                        j as int,
                    ).len() as int] && e == norm_edge(directed, label_of(i), label_of(j));
                assert(flips[i as int][j as int]);
                assert(label_of(i) == label_of(i) && label_of(j) == label_of(j));
                assert(g.edges.contains(e));
            }
        }
    }
}

/// Two graphs of different modes are combined by first converting both to
/// the mode of the result: every binary operation gives what it gives on
/// the converted operands.
pub proof fn law_operands_converted_to_result_mode(a: GraphView, b: GraphView, directed: bool)
    ensures
        ({
            let ca = with_directed_view(a, directed);
            let cb = with_directed_view(b, directed);
            &&& union_view(a, b, directed) == union_view(ca, cb, directed)
            &&& intersection_view(a, b, directed) == intersection_view(ca, cb, directed)
            &&& difference_view(a, b, directed) == difference_view(ca, cb, directed)
            &&& edge_difference_view(a, b, directed) == edge_difference_view(ca, cb, directed)
            &&& symmetric_difference_view(a, b, directed) == symmetric_difference_view(
                ca,
                cb,
                directed,
            )
        }),
{
    lemma_edges_in_own_mode(with_directed_view(a, directed));
    lemma_edges_in_own_mode(with_directed_view(b, directed));
}

} // verus!
