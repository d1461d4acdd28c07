//! What the graph editor decides: its edit modes, the graph operation chosen
//! by kind, what a click on the canvas does, renaming a vertex, and running a
//! program of set statements line by line.
use vstd::prelude::*;
use vstd::string::*;
use crate::graph::{
    add_edge_view, add_vertex_view, complement_view, fresh_label_of, lemma_fresh_label_exists,
    lemma_fresh_label_unique, remove_edge_view, remove_vertex_view, difference_view, edge_difference_view, induced_subgraph_view,
    intersection_view, norm_edge, symmetric_difference_view, union_view, with_directed_view, Edge,
    EdgeView, Graph, GraphView, Label, VertexId,
};
use crate::order::str_eq;
use crate::ordset::{lemma_take_next, ordered, OrdSet};
use crate::expr::value::{SetVal, SetValue};
use crate::program::{trim, trim_text};

verus! {

/// What a click on the canvas does.
#[derive(Clone, Copy, PartialEq, Eq, Structural, Debug)]
pub enum EditMode {
    AddVertex,
    AddEdge,
    Move,
    Delete,
}

pub open spec fn edit_mode_label(m: EditMode) -> Seq<char> {
    match m {
        EditMode::AddVertex => "Knoten hinzufügen"@,
        EditMode::AddEdge => "Kante hinzufügen"@,
        EditMode::Move => "Verschieben"@,
        EditMode::Delete => "Löschen"@,
    }
}

impl EditMode {
    /// The mode's name, as shown on its button.
    pub fn label(self) -> (s: &'static str)
        ensures
            s@ == edit_mode_label(self),
    {
        match self {
            EditMode::AddVertex => "Knoten hinzufügen",
            EditMode::AddEdge => "Kante hinzufügen",
            EditMode::Move => "Verschieben",
            EditMode::Delete => "Löschen",
        }
    }
}

/// The operations that make a new graph out of one or two graphs.
#[derive(Clone, Copy, PartialEq, Eq, Structural, Debug)]
pub enum OpKind {
    Union,
    Intersection,
    Difference,
    EdgeDifference,
    SymmetricDifference,
    Complement,
    Induced,
    ConvertDirected,
}

pub open spec fn op_label(k: OpKind) -> Seq<char> {
    match k {
        OpKind::Union => "Vereinigung  A u B"@,
        OpKind::Intersection => "Durchschnitt  A n B"@,
        OpKind::Difference => "Differenz  A \\ B  (Knoten + Kanten)"@,
        OpKind::EdgeDifference => "Kantendifferenz  E(A) \\ E(B)"@,
        OpKind::SymmetricDifference => "Symmetrische Differenz  A xor B"@,
        OpKind::Complement => "Komplement von A"@,
        OpKind::Induced => "Induzierter Teilgraph von A"@,
        OpKind::ConvertDirected => "A umwandeln (gerichtet <-> ungerichtet)"@,
    }
}

/// The operations that take two graphs.
pub open spec fn op_is_binary(k: OpKind) -> bool {
    match k {
        OpKind::Union | OpKind::Intersection | OpKind::Difference | OpKind::EdgeDifference
        | OpKind::SymmetricDifference => true,
        _ => false,
    }
}

pub open spec fn op_symbol_text(k: OpKind) -> Seq<char> {
    match k {
        OpKind::Union => "u"@,
        OpKind::Intersection => "n"@,
        OpKind::Difference => "\\"@,
        OpKind::EdgeDifference => "\\E"@,
        OpKind::SymmetricDifference => "xor"@,
        _ => ""@,
    }
}

impl OpKind {
    /// Every operation, in the order the menu lists them.
    pub fn all() -> (r: [OpKind; 8])
        ensures
            r@ == seq![
                OpKind::Union,
                OpKind::Intersection,
                OpKind::Difference,
                OpKind::EdgeDifference,
                OpKind::SymmetricDifference,
                OpKind::Complement,
                OpKind::Induced,
                OpKind::ConvertDirected,
            ],
    {
        let r = [
            OpKind::Union,
            OpKind::Intersection,
            OpKind::Difference,
            OpKind::EdgeDifference,
            OpKind::SymmetricDifference,
            OpKind::Complement,
            OpKind::Induced,
            OpKind::ConvertDirected,
        ];
        assert(r@ =~= seq![
            OpKind::Union,
            OpKind::Intersection,
            OpKind::Difference,
            OpKind::EdgeDifference,
            OpKind::SymmetricDifference,
            OpKind::Complement,
            OpKind::Induced,
            OpKind::ConvertDirected,
        ]);
        r
    }

    /// The operation's name, as shown in the menu.
    pub fn label(self) -> (s: &'static str)
        ensures
            s@ == op_label(self),
    {
        match self {
            OpKind::Union => "Vereinigung  A u B",
            OpKind::Intersection => "Durchschnitt  A n B",
            OpKind::Difference => "Differenz  A \\ B  (Knoten + Kanten)",
            OpKind::EdgeDifference => "Kantendifferenz  E(A) \\ E(B)",
            OpKind::SymmetricDifference => "Symmetrische Differenz  A xor B",
            OpKind::Complement => "Komplement von A",
            OpKind::Induced => "Induzierter Teilgraph von A",
            OpKind::ConvertDirected => "A umwandeln (gerichtet <-> ungerichtet)",
        }
    }

    /// Whether the operation takes a second graph.
    pub fn is_binary(self) -> (b: bool)
        ensures
            b == op_is_binary(self),
    {
        match self {
            OpKind::Union | OpKind::Intersection | OpKind::Difference | OpKind::EdgeDifference
            | OpKind::SymmetricDifference => true,
            _ => false,
        }
    }
}

/// The symbol that names a binary operation in the name of its result;
/// empty for the others.
pub fn op_symbol(kind: OpKind) -> (s: &'static str)
    ensures
        s@ == op_symbol_text(kind),
{
    match kind {
        OpKind::Union => "u",
        OpKind::Intersection => "n",
        OpKind::Difference => "\\",
        OpKind::EdgeDifference => "\\E",
        OpKind::SymmetricDifference => "xor",
        _ => "",
    }
}

/// At most `max` characters of `s`; a longer text is cut there and `...`
/// appended.
pub open spec fn truncated(s: Seq<char>, max: nat) -> Seq<char> {
    if s.len() <= max {
        s
    } else {
        s.take(max as int) + "..."@
    }
}

/// `s` cut to at most `max_chars` characters, `...` marking a cut.
pub fn truncate(s: &str, max_chars: usize) -> (r: String)
    ensures
        r@ == truncated(s@, max_chars as nat),
{
    let n = s.unicode_len();
    if n <= max_chars {
        String::from_str(s)
    } else {
        let mut head = String::from_str(s.substring_char(0, max_chars));
        head.append("...");
        proof {
            assert(s@.subrange(0, max_chars as int) =~= s@.take(max_chars as int));
        }
        head
    }
}

/// The graph made by adding the vertices `vs` and then the edges `es` to an
/// empty graph: an edge from a vertex to itself is left out, the other
/// edges bring their endpoints along.
pub open spec fn assembled_view(directed: bool, vs: Set<Label>, es: Set<EdgeView>) -> GraphView {
    GraphView {
        directed,
        vertices: vs.union(
            Set::new(
                |x: Label|
                    exists|e: EdgeView| #[trigger]
                        es.contains(e) && e.0 != e.1 && (x == e.0 || x == e.1),
            ),
        ),
        edges: Set::new(
            |n: EdgeView|
                exists|e: EdgeView| #[trigger]
                    es.contains(e) && e.0 != e.1 && n == norm_edge(directed, e.0, e.1),
        ),
    }
}

/// The graph that a set value is opened as: a vertex set gives a graph
/// without edges, an edge set the graph of those edges and their endpoints.
pub open spec fn set_value_graph(value: SetVal, directed: bool) -> GraphView {
    match value {
        SetVal::Vertices(vs) => assembled_view(directed, vs, Set::empty()),
        SetVal::Edges(es) => assembled_view(directed, Set::empty(), es),
    }
}

impl Graph {
    /// Adds the vertices `vs`, then the edges `es`, to an empty graph.
    pub fn assemble(directed: bool, vs: &OrdSet<VertexId>, es: &OrdSet<Edge>) -> (g: Graph)
        ensures
            g@ == assembled_view(directed, vs@, es@),
    {
        let mut g = Graph::new(directed);
        let n = vs.len();
        let ghost ov = ordered::<VertexId>(vs@);
        let mut i: usize = 0;
        proof {
            assert(ov.take(0).to_set() =~= Set::<Label>::empty());
        }
        while i < n
            invariant
                n == vs@.len(),
                ov == ordered::<VertexId>(vs@),
                ov.len() == n,
                ov.to_set() == vs@,
                i <= n,
                g@ == (GraphView {
                    directed,
                    vertices: ov.take(i as int).to_set(),
                    edges: Set::<EdgeView>::empty(),
                }),
            decreases n - i,
        {
            let v = vs.get(i);
            g.add_vertex(v.as_str());
            proof {
                lemma_take_next(ov, i as int);
            }
            i = i + 1;
        }
        proof {
            assert(ov.take(n as int) =~= ov);
        }
        let m = es.len();
        let ghost oe = ordered::<Edge>(es@);
        let mut j: usize = 0;
        proof {
            let start = assembled_view(directed, vs@, oe.take(0).to_set());
            assert(oe.take(0).to_set() =~= Set::<EdgeView>::empty());
            assert(start.vertices =~= vs@);
            assert(start.edges =~= Set::<EdgeView>::empty());
        }
        while j < m
            invariant
                m == es@.len(),
                oe == ordered::<Edge>(es@),
                oe.len() == m,
                oe.to_set() == es@,
                j <= m,
                g@ == assembled_view(directed, vs@, oe.take(j as int).to_set()),
            decreases m - j,
        {
            let e = es.get(j);
            let ghost before = g@;
            g.add_edge(e.0.as_str(), e.1.as_str());
            proof {
                lemma_take_next(oe, j as int);
                let prev = oe.take(j as int).to_set();
                let next = oe.take(j + 1).to_set();
                let ev = oe[j as int];
                assert(e@ == ev);
                assert(g@ == add_edge_view(before, ev.0, ev.1));
                let want = assembled_view(directed, vs@, next);
                let had = assembled_view(directed, vs@, prev);
                assert forall|x: Label| #[trigger] want.vertices.contains(x) <==> g@.vertices.contains(
                    x,
                ) by {
                    if want.vertices.contains(x) && !vs@.contains(x) {
                        let w = choose|w: EdgeView| #[trigger]
                            next.contains(w) && w.0 != w.1 && (x == w.0 || x == w.1);
                        if w != ev {
                            assert(prev.contains(w));
                            assert(had.vertices.contains(x));
                        }
                    }
                    if g@.vertices.contains(x) && !had.vertices.contains(x) {
                        assert(next.contains(ev));
                    }
                    if had.vertices.contains(x) && !vs@.contains(x) {
                        let w = choose|w: EdgeView| #[trigger]
                            prev.contains(w) && w.0 != w.1 && (x == w.0 || x == w.1);
                        assert(next.contains(w));
                    }
                }
                assert forall|x: EdgeView| #[trigger] want.edges.contains(x) <==> g@.edges.contains(
                    x,
                ) by {
                    if want.edges.contains(x) {
                        let w = choose|w: EdgeView| #[trigger]
                            next.contains(w) && w.0 != w.1 && x == norm_edge(directed, w.0, w.1);
                        if w != ev {
                            assert(prev.contains(w));
                            assert(had.edges.contains(x));
                        }
                    }
                    if g@.edges.contains(x) && !had.edges.contains(x) {
                        assert(next.contains(ev));
                    }
                    if had.edges.contains(x) {
                        let w = choose|w: EdgeView| #[trigger]
                            prev.contains(w) && w.0 != w.1 && x == norm_edge(directed, w.0, w.1);
                        assert(next.contains(w));
                    }
                }
                assert(want.vertices =~= g@.vertices);
                assert(want.edges =~= g@.edges);
            }
            j = j + 1;
        }
        proof {
            assert(oe.take(m as int) =~= oe);
        }
        g
    }
}

/// Opens a set value as a graph: a vertex set gives a graph without edges,
/// an edge set the graph of those edges and their endpoints.
pub fn set_value_to_graph(value: &SetValue, directed: bool) -> (g: Graph)
    ensures
        g@ == set_value_graph(value@, directed),
{
    match value {
        SetValue::Vertices(vs) => Graph::assemble(directed, vs, &OrdSet::new()),
        SetValue::Edges(es) => Graph::assemble(directed, &OrdSet::new(), es),
    }
}

/// The graph that a binary operation makes of `a` and `b`, both first read
/// in the mode `directed`.
pub open spec fn binary_op_view(kind: OpKind, a: GraphView, b: GraphView, directed: bool) -> GraphView {
    match kind {
        OpKind::Union => union_view(a, b, directed),
        OpKind::Intersection => intersection_view(a, b, directed),
        OpKind::Difference => difference_view(a, b, directed),
        OpKind::EdgeDifference => edge_difference_view(a, b, directed),
        _ => symmetric_difference_view(a, b, directed),
    }
}

/// Applies the operation `kind` to `a` (and `b`, for a binary one).
///
/// `directed` is the mode of the result of a binary operation or of a
/// conversion; `selection` the vertices of an induced subgraph. A binary
/// operation without a second graph, and an induced subgraph on no vertex,
/// are refused with a message.
pub fn apply_operation(
    kind: OpKind,
    a: &Graph,
    b: Option<&Graph>,
    directed: bool,
    selection: &OrdSet<VertexId>,
) -> (r: Result<Graph, String>)
    ensures
        op_is_binary(kind) ==> match b {
            Some(bg) => r matches Ok(g) && g@ == binary_op_view(kind, a@, bg@, directed),
            None => r matches Err(e) && e@ == "Bitte Graph B auswählen."@,
        },
        kind == OpKind::Complement ==> (r matches Ok(g) && g@ == complement_view(a@)),
        kind == OpKind::ConvertDirected ==> (r matches Ok(g) && g@ == with_directed_view(
            a@,
            directed,
        )),
        kind == OpKind::Induced ==> if selection@.len() == 0 {
            r matches Err(e) && e@ == "Bitte mindestens einen Knoten für den Teilgraphen auswählen."@
        } else {
            r matches Ok(g) && g@ == induced_subgraph_view(a@, selection@)
        },
{
    if kind.is_binary() {
        let bg = match b {
            Some(bg) => bg,
            None => return Err(String::from_str("Bitte Graph B auswählen.")),
        };
        let g = match kind {
            OpKind::Union => Graph::union(a, bg, directed),
            OpKind::Intersection => Graph::intersection(a, bg, directed),
            OpKind::Difference => Graph::difference(a, bg, directed),
            OpKind::EdgeDifference => Graph::edge_difference(a, bg, directed),
            _ => Graph::symmetric_difference(a, bg, directed),
        };
        Ok(g)
    } else {
        match kind {
            OpKind::Complement => Ok(Graph::complement(a)),
            OpKind::ConvertDirected => Ok(Graph::with_directed(a, directed)),
            _ => {
                if selection.is_empty() {
                    Err(
                        String::from_str(
                            "Bitte mindestens einen Knoten für den Teilgraphen auswählen.",
                        ),
                    )
                } else {
                    Ok(Graph::induced_subgraph(a, selection))
                }
            },
        }
    }
}

/// The name given to the result of an operation on graphs named `a` and `b`.
pub open spec fn result_name_text(kind: OpKind, a: Seq<char>, b: Seq<char>) -> Seq<char> {
    match kind {
        OpKind::Complement => "not "@ + a,
        OpKind::ConvertDirected => a + "'"@,
        OpKind::Induced => a + "[S]"@,
        _ => a + " "@ + op_symbol_text(kind) + " "@ + b,
    }
}

/// The name of the tab that shows the result of an operation: `not A`,
/// `A'`, `A[S]`, or `A sym B` for a binary one.
pub fn operation_result_name(kind: OpKind, a_name: &str, b_name: &str) -> (r: String)
    ensures
        r@ == result_name_text(kind, a_name@, b_name@),
{
    match kind {
        OpKind::Complement => {
            let mut s = String::from_str("not ");
            s.append(a_name);
            s
        },
        OpKind::ConvertDirected => {
            let mut s = String::from_str(a_name);
            s.append("'");
            s
        },
        OpKind::Induced => {
            let mut s = String::from_str(a_name);
            s.append("[S]");
            s
        },
        _ => {
            let mut s = String::from_str(a_name);
            s.append(" ");
            s.append(op_symbol(kind));
            s.append(" ");
            s.append(b_name);
            s
        },
    }
}

/// What happened on the canvas in one frame.
#[derive(Debug)]
pub enum CanvasEvent {
    /// A vertex was clicked.
    VertexClicked(VertexId),
    /// The canvas away from the vertices was clicked. The flag says whether
    /// the pointer's position is known; the edge is the one closest to the
    /// pointer within reach, if there is one.
    BackgroundClicked(bool, Option<Edge>),
    /// Nothing was clicked.
    Idle,
}

pub enum CanvasEventV {
    VertexClicked(Label),
    BackgroundClicked(bool, Option<EdgeView>),
    Idle,
}

impl View for CanvasEvent {
    type V = CanvasEventV;

    open spec fn view(&self) -> CanvasEventV {
        match self {
            CanvasEvent::VertexClicked(v) => CanvasEventV::VertexClicked(v@),
            CanvasEvent::BackgroundClicked(known, near) => CanvasEventV::BackgroundClicked(
                *known,
                match near {
                    Some(e) => Some(e@),
                    None => None,
                },
            ),
            CanvasEvent::Idle => CanvasEventV::Idle,
        }
    }
}

pub open spec fn label_opt(o: Option<VertexId>) -> Option<Label> {
    match o {
        Some(s) => Some(s@),
        None => None,
    }
}

/// The graph and the vertex an edge is pending from after a canvas event
/// in the edit mode `mode`.
///
/// Adding a vertex takes a click on the empty canvas at a known position
/// and gives the new vertex the fresh label. Adding an edge takes two
/// clicked vertices: the first is held pending, the second makes the edge
/// (clicking the pending vertex again, or the empty canvas, drops it).
/// Deleting removes a clicked vertex with its edges, or the edge near a
/// click on the empty canvas.
pub open spec fn canvas_step(
    g: GraphView,
    mode: EditMode,
    pending: Option<Label>,
    ev: CanvasEventV,
) -> (GraphView, Option<Label>) {
    match ev {
        CanvasEventV::VertexClicked(v) => match mode {
            EditMode::AddEdge => match pending {
                Some(from) => (
                    if from != v {
                        add_edge_view(g, from, v)
                    } else {
                        g
                    },
                    None,
                ),
                None => (g, Some(v)),
            },
            EditMode::Delete => (remove_vertex_view(g, v), pending),
            _ => (g, pending),
        },
        CanvasEventV::BackgroundClicked(pointer_known, near) => match mode {
            EditMode::AddVertex => (
                if pointer_known {
                    add_vertex_view(g, fresh_label_of(g.vertices))
                } else {
                    g
                },
                pending,
            ),
            EditMode::AddEdge => (g, None),
            EditMode::Delete => (
                match near {
                    Some(e) => remove_edge_view(g, e.0, e.1),
                    None => g,
                },
                pending,
            ),
            EditMode::Move => (g, pending),
        },
        CanvasEventV::Idle => (g, pending),
    }
}

/// The vertex that a canvas event adds: the fresh one, on a click on the
/// empty canvas at a known position while adding vertices.
pub open spec fn canvas_new_vertex(g: GraphView, mode: EditMode, ev: CanvasEventV) -> Option<Label> {
    if mode == EditMode::AddVertex && ev matches CanvasEventV::BackgroundClicked(true, _) {
        Some(fresh_label_of(g.vertices))
    } else {
        None
    }
}

/// Carries out a canvas event in the edit mode `mode` (see `canvas_step`);
/// returns the vertex it added, so that it can be placed where the click
/// was.
pub fn handle_canvas_event(
    graph: &mut Graph,
    mode: EditMode,
    pending: &mut Option<VertexId>,
    event: CanvasEvent,
) -> (added: Option<VertexId>)
    ensures
        (final(graph)@, label_opt(*final(pending))) == canvas_step(
            old(graph)@,
            mode,
            label_opt(*old(pending)),
            event@,
        ),
        label_opt(added) == canvas_new_vertex(old(graph)@, mode, event@),
{
    match event {
        CanvasEvent::VertexClicked(v) => {
            match mode {
                EditMode::AddEdge => {
                    let mut prev: Option<VertexId> = None;
                    std::mem::swap(&mut prev, pending);
                    match prev {
                        Some(from) => {
                            if !str_eq(from.as_str(), v.as_str()) {
                                graph.add_edge(from.as_str(), v.as_str());
                            }
                        },
                        None => {
                            *pending = Some(v);
                        },
                    }
                },
                EditMode::Delete => {
                    graph.remove_vertex(v.as_str());
                },
                _ => {},
            }
            None
        },
        CanvasEvent::BackgroundClicked(pointer_known, near) => {
            match mode {
                EditMode::AddVertex => {
                    if pointer_known {
                        let label = graph.fresh_label();
                        proof {
                            graph.vertices.lemma_finite();
                            lemma_fresh_label_exists(graph@.vertices);
                            lemma_fresh_label_unique(
                                graph@.vertices,
                                label@,
                                fresh_label_of(graph@.vertices),
                            );
                        }
                        graph.add_vertex(label.as_str());
                        Some(label)
                    } else {
                        None
                    }
                },
                EditMode::AddEdge => {
                    *pending = None;
                    None
                },
                EditMode::Delete => {
                    match near {
                        Some(e) => graph.remove_edge(e.0.as_str(), e.1.as_str()),
                        None => {},
                    }
                    None
                },
                EditMode::Move => None,
            }
        },
        CanvasEvent::Idle => None,
    }
}

/// `x` with `old` renamed to `new`.
pub open spec fn renamed(x: Label, old: Label, new: Label) -> Label {
    if x == old {
        new
    } else {
        x
    }
}

/// Mapping a set with one more element gives the mapped set with that
/// element's image added.
proof fn lemma_map_insert<A, B>(s: Set<A>, x: A, f: spec_fn(A) -> B)
    ensures
        s.insert(x).map(f) == s.map(f).insert(f(x)),
{
    assert forall|y: B| #[trigger] s.insert(x).map(f).contains(y) implies s.map(f).insert(
        f(x),
    ).contains(y) by {
        let w = choose|w: A| s.insert(x).contains(w) && f(w) == y;
        if w != x {
            assert(s.contains(w));
        }
    }
    assert forall|y: B| #[trigger] s.map(f).insert(f(x)).contains(y) implies s.insert(x).map(
        f,
    ).contains(y) by {
        if y == f(x) {
            assert(s.insert(x).contains(x));
        } else {
            let w = choose|w: A| s.contains(w) && f(w) == y;
            assert(s.insert(x).contains(w));
        }
    }
    assert(s.insert(x).map(f) =~= s.map(f).insert(f(x)));
}

/// The renaming of `old` to `new`, on labels.
pub open spec fn rename_label_fn(old: Label, new: Label) -> spec_fn(Label) -> Label {
    |x: Label| renamed(x, old, new)
}

/// The renaming of `old` to `new`, on both ends of an edge.
pub open spec fn rename_edge_fn(old: Label, new: Label) -> spec_fn(EdgeView) -> EdgeView {
    |e: EdgeView| (renamed(e.0, old, new), renamed(e.1, old, new))
}

/// The graph rebuilt with the vertex `old` called `new`: its renamed
/// vertices added first, then its renamed edges.
pub open spec fn rename_view(g: GraphView, old: Label, new: Label) -> GraphView {
    assembled_view(
        g.directed,
        g.vertices.map(rename_label_fn(old, new)),
        g.edges.map(rename_edge_fn(old, new)),
    )
}

/// Whether the vertex `target` may be renamed to `name`: a new name must
/// not be empty, nor the name of another vertex.
pub fn rename_allowed(graph: &Graph, target: Option<&str>, name: &str) -> (b: bool)
    ensures
        b == match target {
            Some(t) => name@.len() > 0 && (name@ == t@ || !graph@.vertices.contains(name@)),
            None => false,
        },
{
    match target {
        Some(t) => {
            let n = name.unicode_len();
            n > 0 && (str_eq(name, t) || !graph.vertices.contains(&String::from_str(name)))
        },
        None => false,
    }
}

fn rename_text(x: &str, old: &str, new: &str) -> (r: String)
    ensures
        r@ == renamed(x@, old@, new@),
{
    if str_eq(x, old) {
        String::from_str(new)
    } else {
        String::from_str(x)
    }
}

/// Renames the vertex `from` to `to`, the edges following; nothing changes
/// (and `false` comes back) where `to` equals `from`, is empty, or is
/// already a vertex.
pub fn rename_vertex(graph: &mut Graph, from: &str, to: &str) -> (done: bool)
    ensures
        done == !(from@ == to@ || to@.len() == 0 || old(graph)@.vertices.contains(to@)),
        done ==> final(graph)@ == rename_view(old(graph)@, from@, to@),
        !done ==> final(graph)@ == old(graph)@,
{
    if str_eq(from, to) || to.unicode_len() == 0 || graph.vertices.contains(&String::from_str(to)) {
        return false;
    }
    let ghost g0 = graph@;
    let n = graph.vertices.len();
    let ghost ov = ordered::<VertexId>(g0.vertices);
    let mut vs: OrdSet<VertexId> = OrdSet::new();
    let mut i: usize = 0;
    proof {
        assert(ov.take(0).to_set().map(rename_label_fn(from@, to@)) =~= Set::<Label>::empty());
    }
    while i < n
        invariant
            g0 == graph@,
            n == g0.vertices.len(),
            ov == ordered::<VertexId>(g0.vertices),
            ov.len() == n,
            ov.to_set() == g0.vertices,
            i <= n,
            vs@ == ov.take(i as int).to_set().map(rename_label_fn(from@, to@)),
        decreases n - i,
    {
        let v = graph.vertices.get(i);
        let r = rename_text(v.as_str(), from, to);
        vs.insert(r);
        proof {
            lemma_take_next(ov, i as int);
            lemma_map_insert(ov.take(i as int).to_set(), ov[i as int], rename_label_fn(from@, to@));
        }
        i = i + 1;
    }
    let m = graph.edges.len();
    let ghost oe = ordered::<Edge>(g0.edges);
    let mut es: OrdSet<Edge> = OrdSet::new();
    let mut j: usize = 0;
    proof {
        assert(ov.take(n as int) =~= ov);
        assert(oe.take(0).to_set().map(rename_edge_fn(from@, to@)) =~= Set::<EdgeView>::empty());
    }
    while j < m
        invariant
            g0 == graph@,
            m == g0.edges.len(),
            oe == ordered::<Edge>(g0.edges),
            oe.len() == m,
            oe.to_set() == g0.edges,
            j <= m,
            es@ == oe.take(j as int).to_set().map(rename_edge_fn(from@, to@)),
        decreases m - j,
    {
        let e = graph.edges.get(j);
        let a = rename_text(e.0.as_str(), from, to);
        let b = rename_text(e.1.as_str(), from, to);
        es.insert((a, b));
        proof {
            lemma_take_next(oe, j as int);
            lemma_map_insert(oe.take(j as int).to_set(), oe[j as int], rename_edge_fn(from@, to@));
        }
        j = j + 1;
    }
    proof {
        assert(oe.take(m as int) =~= oe);
    }
    let directed = graph.directed;
    *graph = Graph::assemble(directed, &vs, &es);
    true
}

/// The name under which a filter's result is kept: the given name, trimmed,
/// or `filter(source)` where none is given.
pub open spec fn filter_result_name_text(given: Seq<char>, filter: Seq<char>, source: Seq<char>) -> Seq<
    char,
> {
    if trim(given).len() == 0 {
        filter + "("@ + source + ")"@
    } else {
        trim(given)
    }
}

/// The name under which the result of the filter `filter` run on the graph
/// `source` is kept.
pub fn filter_result_name(given: &str, filter: &str, source: &str) -> (r: String)
    ensures
        r@ == filter_result_name_text(given@, filter@, source@),
{
    let t = trim_text(given);
    if t.unicode_len() == 0 {
        let mut s = String::from_str(filter);
        s.append("(");
        s.append(source);
        s.append(")");
        s
    } else {
        t
    }
}

/// The names of the vertex set and of the edge set that a filter's result
/// named `name` is kept as.
pub fn result_set_names(name: &str) -> (r: (String, String))
    ensures
        r.0@ == name@ + " (Knoten)"@,
        r.1@ == name@ + " (Kanten)"@,
{
    let mut v = String::from_str(name);
    v.append(" (Knoten)");
    let mut e = String::from_str(name);
    e.append(" (Kanten)");
    (v, e)
}

} // verus!
