//! Questions about the neighbourhood of a vertex, and a maximal independent
//! set picked greedily.
use vstd::prelude::*;
use crate::graph::{well_formed, Edge, EdgeView, Graph, GraphView, Label, VertexId};
use crate::order::{str_eq, Keyed};
use crate::ordset::{lemma_take_next, ordered, OrdSet, Selector};

verus! {

/// The edges that start or end at `v`.
pub open spec fn incident_edges(g: GraphView, v: Label) -> Set<EdgeView> {
    g.edges.filter(|e: EdgeView| e.0 == v || e.1 == v)
}

/// The other ends of the edges at `v`: the end of an edge leaving `v`, the
/// start of an edge arriving at `v` from another vertex.
pub open spec fn neighbors_view(g: GraphView, v: Label) -> Set<Label> {
    Set::new(
        |x: Label|
            exists|e: EdgeView| #[trigger]
                g.edges.contains(e) && ((e.0 == v && x == e.1) || (e.0 != v && e.1 == v && x
                    == e.0)),
    )
}

/// Whether some edge joins `v` to a vertex of `chosen`, in either direction.
pub open spec fn conflicts(edges: Set<EdgeView>, chosen: Set<Label>, v: Label) -> bool {
    exists|e: EdgeView| #[trigger]
        edges.contains(e) && ((e.0 == v && chosen.contains(e.1)) || (e.1 == v && chosen.contains(
            e.0,
        )))
}

/// The vertices that the greedy pass has taken after looking at the first
/// `k` of `order`: a vertex is taken when no edge joins it to one taken
/// before.
pub open spec fn greedy_prefix(edges: Set<EdgeView>, order: Seq<Label>, k: nat) -> Set<Label>
    decreases k,
{
    if k == 0 || k > order.len() {
        Set::empty()
    } else {
        let before = greedy_prefix(edges, order, (k - 1) as nat);
        if conflicts(edges, before, order[k - 1]) {
            before
        } else {
            before.insert(order[k - 1])
        }
    }
}

/// The independent set that the greedy pass over the vertices, in
/// increasing order, picks.
pub open spec fn greedy_independent_view(g: GraphView) -> Set<Label> {
    greedy_prefix(g.edges, ordered::<VertexId>(g.vertices), g.vertices.len())
}

/// No edge joins two vertices of `s`.
pub open spec fn is_independent(g: GraphView, s: Set<Label>) -> bool {
    forall|e: EdgeView| #[trigger] g.edges.contains(e) ==> !(s.contains(e.0) && s.contains(e.1))
}

/// Every vertex outside `s` is joined by an edge to a vertex of `s`.
pub open spec fn is_dominating(g: GraphView, s: Set<Label>) -> bool {
    forall|v: Label| #[trigger]
        g.vertices.contains(v) && !s.contains(v) ==> conflicts(g.edges, s, v)
}

/// Selects the edges that touch a given vertex.
struct TouchesVertex<'a> {
    id: &'a str,
}

impl<'a> Selector<Edge> for TouchesVertex<'a> {
    closed spec fn selects(&self, e: EdgeView) -> bool {
        e.0 == self.id@ || e.1 == self.id@
    }

    fn select(&self, e: &Edge) -> (b: bool) {
        str_eq(e.0.as_str(), self.id) || str_eq(e.1.as_str(), self.id)
    }
}

/// The greedy pass only ever adds vertices, and only vertices of `order`.
proof fn lemma_greedy_grows(edges: Set<EdgeView>, order: Seq<Label>, j: nat, k: nat)
    requires
        j <= k <= order.len(),
    ensures
        greedy_prefix(edges, order, j).subset_of(greedy_prefix(edges, order, k)),
        forall|x: Label| #[trigger]
            greedy_prefix(edges, order, k).contains(x) ==> order.take(k as int).contains(x),
    decreases k,
{
    if k > 0 {
        let k1 = (k - 1) as nat;
        if j < k {
            lemma_greedy_grows(edges, order, j, k1);
        } else {
            lemma_greedy_grows(edges, order, k1, k1);
        }
        assert forall|x: Label| #[trigger]
            greedy_prefix(edges, order, k).contains(x) implies order.take(k as int).contains(x) by {
            if x == order[k - 1] {
                assert(order.take(k as int)[k - 1] == x);
            } else {
                assert(greedy_prefix(edges, order, k1).contains(x));
                let i = choose|i: int| 0 <= i < k1 && order.take(k1 as int)[i] == x;
                assert(order.take(k as int)[i] == x);
            }
        }
    }
}

/// No edge joins two vertices that the greedy pass took.
proof fn lemma_greedy_independent(edges: Set<EdgeView>, order: Seq<Label>, k: nat)
    requires
        k <= order.len(),
        forall|e: EdgeView| #[trigger] edges.contains(e) ==> e.0 != e.1,
    ensures
        forall|e: EdgeView| #[trigger]
            edges.contains(e) ==> !(greedy_prefix(edges, order, k).contains(e.0)
                && greedy_prefix(edges, order, k).contains(e.1)),
    decreases k,
{
    if k > 0 {
        let k1 = (k - 1) as nat;
        lemma_greedy_independent(edges, order, k1);
        let before = greedy_prefix(edges, order, k1);
        let v = order[k - 1];
        assert forall|e: EdgeView| #[trigger] edges.contains(e) implies !(greedy_prefix(
            edges,
            order,
            k,
        ).contains(e.0) && greedy_prefix(edges, order, k).contains(e.1)) by {
            if !conflicts(edges, before, v) {
                if e.0 == v && before.contains(e.1) {
                    assert(conflicts(edges, before, v));
                }
                if e.1 == v && before.contains(e.0) {
                    assert(conflicts(edges, before, v));
                }
            }
        }
    }
}

/// Every vertex of `order` that the greedy pass left out is joined by an
/// edge to a vertex it took.
proof fn lemma_greedy_dominating(edges: Set<EdgeView>, order: Seq<Label>, k: nat)
    requires
        k <= order.len(),
    ensures
        forall|i: int|
            0 <= i < k && !greedy_prefix(edges, order, k).contains(#[trigger] order[i])
                ==> conflicts(edges, greedy_prefix(edges, order, k), order[i]),
    decreases k,
{
    if k > 0 {
        let k1 = (k - 1) as nat;
        lemma_greedy_dominating(edges, order, k1);
        lemma_greedy_grows(edges, order, k1, k);
        let before = greedy_prefix(edges, order, k1);
        let after = greedy_prefix(edges, order, k);
        assert forall|i: int|
            0 <= i < k && !after.contains(#[trigger] order[i]) implies conflicts(
            edges,
            after,
            order[i],
        ) by {
            let v = order[i];
            let w = if i < k1 {
                assert(!before.contains(v));
                choose|e: EdgeView| #[trigger]
                    edges.contains(e) && ((e.0 == v && before.contains(e.1)) || (e.1 == v
                        && before.contains(e.0)))
            } else {
                assert(conflicts(edges, before, v));
                choose|e: EdgeView| #[trigger]
                    edges.contains(e) && ((e.0 == v && before.contains(e.1)) || (e.1 == v
                        && before.contains(e.0)))
            };
            assert(edges.contains(w) && ((w.0 == v && after.contains(w.1)) || (w.1 == v
                && after.contains(w.0))));
        }
    }
}

impl Graph {
    /// How many edges start or end at `v`.
    pub fn degree(&self, v: &str) -> (n: usize)
        ensures
            n == incident_edges(self@, v@).len(),
    {
        let touching = self.edges.filter_with(&TouchesVertex { id: v });
        proof {
            assert(touching@ =~= incident_edges(self@, v@));
        }
        touching.len()
    }

    /// The other ends of the edges at `v`.
    pub fn neighbors(&self, v: &str) -> (r: OrdSet<VertexId>)
        ensures
            r@ == neighbors_view(self@, v@),
    {
        let n = self.edges.len();
        let ghost oe = ordered::<Edge>(self@.edges);
        let mut r: OrdSet<VertexId> = OrdSet::new();
        let mut i: usize = 0;
        while i < n
            invariant
                n == self@.edges.len(),
                oe == ordered::<Edge>(self@.edges),
                oe.len() == n,
                oe.to_set() == self@.edges,
                i <= n,
                r@ == neighbors_view(
                    GraphView { edges: oe.take(i as int).to_set(), ..self@ },
                    v@,
                ),
            decreases n - i,
        {
            let e = self.edges.get(i);
            let ghost before = r@;
            if str_eq(e.0.as_str(), v) {
                r.insert(e.1.duplicate());
            } else if str_eq(e.1.as_str(), v) {
                r.insert(e.0.duplicate());
            }
            proof {
                lemma_take_next(oe, i as int);
                let prev = GraphView { edges: oe.take(i as int).to_set(), ..self@ };
                let next = GraphView { edges: oe.take(i + 1).to_set(), ..self@ };
                assert forall|x: Label| #[trigger] r@.contains(x) <==> neighbors_view(
                    next,
                    v@,
                ).contains(x) by {
                    if neighbors_view(next, v@).contains(x) {
                        let w = choose|w: EdgeView| #[trigger]
                            next.edges.contains(w) && ((w.0 == v@ && x == w.1) || (w.0 != v@
                                && w.1 == v@ && x == w.0));
                        if w != oe[i as int] {
                            assert(prev.edges.contains(w));
                            assert(neighbors_view(prev, v@).contains(x));
                        }
                    }
                    if before.contains(x) {
                        let w = choose|w: EdgeView| #[trigger]
                            prev.edges.contains(w) && ((w.0 == v@ && x == w.1) || (w.0 != v@
                                && w.1 == v@ && x == w.0));
                        assert(next.edges.contains(w));
                    }
                    if r@.contains(x) && !before.contains(x) {
                        assert(next.edges.contains(oe[i as int]));
                    }
                }
                assert(r@ =~= neighbors_view(next, v@));
            }
            i = i + 1;
        }
        proof {
            assert(oe.take(n as int) =~= oe);
            assert(GraphView { edges: oe.take(n as int).to_set(), ..self@ } == self@);
        }
        r
    }

    /// Whether an edge joins `v` to a vertex of `chosen`.
    fn conflicts_with(&self, chosen: &OrdSet<VertexId>, v: &str) -> (b: bool)
        ensures
            b == conflicts(self@.edges, chosen@, v@),
    {
        let n = self.edges.len();
        let ghost oe = ordered::<Edge>(self@.edges);
        let mut i: usize = 0;
        while i < n
            invariant
                n == self@.edges.len(),
                oe == ordered::<Edge>(self@.edges),
                oe.len() == n,
                oe.to_set() == self@.edges,
                i <= n,
                !conflicts(oe.take(i as int).to_set(), chosen@, v@),
            decreases n - i,
        {
            let e = self.edges.get(i);
            proof {
                lemma_take_next(oe, i as int);
            }
            if (str_eq(e.0.as_str(), v) && chosen.contains(&e.1)) || (str_eq(e.1.as_str(), v)
                && chosen.contains(&e.0)) {
                proof {
                    assert(self@.edges.contains(oe[i as int]));
                }
                return true;
            }
            proof {
                if conflicts(oe.take(i + 1).to_set(), chosen@, v@) {
                    let w = choose|w: EdgeView| #[trigger]
                        oe.take(i + 1).to_set().contains(w) && ((w.0 == v@ && chosen@.contains(
                            w.1,
                        )) || (w.1 == v@ && chosen@.contains(w.0)));
                    assert(oe.take(i as int).to_set().contains(w));
                }
            }
            i = i + 1;
        }
        proof {
            assert(oe.take(n as int) =~= oe);
        }
        false
    }

    /// A maximal independent set, picked greedily: the vertices are looked at
    /// in increasing order, and one is taken when no edge joins it to a
    /// vertex taken before.
    pub fn greedy_independent_set(&self) -> (r: OrdSet<VertexId>)
        ensures
            r@ == greedy_independent_view(self@),
            r@.subset_of(self@.vertices),
            well_formed(self@) ==> is_independent(self@, r@),
            is_dominating(self@, r@),
    {
        let n = self.vertices.len();
        let ghost ov = ordered::<VertexId>(self@.vertices);
        let mut chosen: OrdSet<VertexId> = OrdSet::new();
        let mut i: usize = 0;
        while i < n
            invariant
                n == self@.vertices.len(),
                ov == ordered::<VertexId>(self@.vertices),
                ov.len() == n,
                ov.to_set() == self@.vertices,
                i <= n,
                chosen@ == greedy_prefix(self@.edges, ov, i as nat),
            decreases n - i,
        {
            let v = self.vertices.get(i);
            if !self.conflicts_with(&chosen, v.as_str()) {
                chosen.insert(v.duplicate());
            }
            i = i + 1;
        }
        proof {
            let edges = self@.edges;
            lemma_greedy_grows(edges, ov, n as nat, n as nat);
            assert(ov.take(n as int) =~= ov);
            assert forall|x: Label| #[trigger] chosen@.contains(x) implies self@.vertices.contains(
                x,
            ) by {
                assert(ov.contains(x));
            }
            if well_formed(self@) {
                lemma_greedy_independent(edges, ov, n as nat);
            }
            lemma_greedy_dominating(edges, ov, n as nat);
            assert forall|v: Label| #[trigger]
                self@.vertices.contains(v) && !chosen@.contains(v) implies conflicts(
                edges,
                chosen@,
                v,
            ) by {
                assert(ov.contains(v));
                let i = choose|i: int| 0 <= i < ov.len() && ov[i] == v;
                assert(!greedy_prefix(edges, ov, n as nat).contains(ov[i]));
            }
        }
        chosen
    }
}

} // verus!
