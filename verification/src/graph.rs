//! Graphs identified by vertex labels, and the set operations between them.
use vstd::prelude::*;
use vstd::string::*;
use crate::order::{compare_str, lex_le, lex_lt, str_eq, Keyed, Order};
use crate::ordset::{lemma_take_next, ordered, strictly_sorted, OrdSet, Selector};

verus! {

/// A vertex identity. Vertices are compared and combined by this label, so
/// set operations between two graphs are well-defined regardless of how
/// each graph's vertices were laid out on screen.
pub type VertexId = String;

/// An edge is a pair of vertex labels. For undirected graphs the pair is
/// always stored normalized (smaller label first) so that `{a, b}` and
/// `{b, a}` are the same set element.
pub type Edge = (VertexId, VertexId);

pub type Label = Seq<char>;

pub type EdgeView = (Seq<char>, Seq<char>);

/// The mathematical content of a graph.
pub struct GraphView {
    pub directed: bool,
    pub vertices: Set<Label>,
    pub edges: Set<EdgeView>,
}

#[derive(Debug)]
pub struct Graph {
    pub directed: bool,
    pub vertices: OrdSet<VertexId>,
    pub edges: OrdSet<Edge>,
}

impl View for Graph {
    type V = GraphView;

    open spec fn view(&self) -> GraphView {
        GraphView { directed: self.directed, vertices: self.vertices@, edges: self.edges@ }
    }
}

pub open spec fn swap(e: EdgeView) -> EdgeView {
    (e.1, e.0)
}

/// How an edge from `a` to `b` is stored: undirected edges put the smaller
/// label first, directed edges keep their order.
pub open spec fn norm_edge(directed: bool, a: Label, b: Label) -> EdgeView {
    if directed || lex_le(a, b) {
        (a, b)
    } else {
        (b, a)
    }
}

/// An edge set read as directed pairs: an undirected edge stands for both
/// directions.
pub open spec fn directed_edges(directed: bool, edges: Set<EdgeView>) -> Set<EdgeView> {
    if directed {
        edges
    } else {
        Set::new(|e: EdgeView| edges.contains(e) || edges.contains(swap(e)))
    }
}

/// An edge set read as undirected, normalized pairs: a directed `a -> b`
/// and `b -> a` collapse into one edge.
pub open spec fn undirected_edges(directed: bool, edges: Set<EdgeView>) -> Set<EdgeView> {
    if !directed {
        edges
    } else {
        Set::new(
            |e: EdgeView| lex_le(e.0, e.1) && (edges.contains(e) || edges.contains(swap(e))),
        )
    }
}

/// The edge set of `g` in the requested mode.
pub open spec fn edges_in(g: GraphView, directed: bool) -> Set<EdgeView> {
    if directed {
        directed_edges(g.directed, g.edges)
    } else {
        undirected_edges(g.directed, g.edges)
    }
}

/// Edges whose two endpoints both lie in `vs`.
pub open spec fn edges_within(edges: Set<EdgeView>, vs: Set<Label>) -> Set<EdgeView> {
    edges.filter(|e: EdgeView| vs.contains(e.0) && vs.contains(e.1))
}

pub open spec fn add_vertex_view(g: GraphView, id: Label) -> GraphView {
    GraphView { vertices: g.vertices.insert(id), ..g }
}

/// The vertex goes, and with it every edge that touches it.
pub open spec fn remove_vertex_view(g: GraphView, id: Label) -> GraphView {
    GraphView {
        directed: g.directed,
        vertices: g.vertices.remove(id),
        edges: g.edges.filter(|e: EdgeView| e.0 != id && e.1 != id),
    }
}

/// An edge from a vertex to itself is ignored (no self loops); otherwise
/// both endpoints and the normalized edge are added.
pub open spec fn add_edge_view(g: GraphView, from: Label, to: Label) -> GraphView {
    if from == to {
        g
    } else {
        GraphView {
            directed: g.directed,
            vertices: g.vertices.insert(from).insert(to),
            edges: g.edges.insert(norm_edge(g.directed, from, to)),
        }
    }
}

pub open spec fn remove_edge_view(g: GraphView, from: Label, to: Label) -> GraphView {
    GraphView { edges: g.edges.remove(norm_edge(g.directed, from, to)), ..g }
}

/// Whether `g` has the edge from `from` to `to` (in either direction when
/// undirected).
pub open spec fn has_edge_view(g: GraphView, from: Label, to: Label) -> bool {
    g.edges.contains(norm_edge(g.directed, from, to))
}

pub open spec fn union_view(a: GraphView, b: GraphView, directed: bool) -> GraphView {
    GraphView {
        directed,
        vertices: a.vertices.union(b.vertices),
        edges: edges_in(a, directed).union(edges_in(b, directed)),
    }
}

pub open spec fn intersection_view(a: GraphView, b: GraphView, directed: bool) -> GraphView {
    GraphView {
        directed,
        vertices: a.vertices.intersect(b.vertices),
        edges: edges_in(a, directed).intersect(edges_in(b, directed)),
    }
}

/// V' = V(a) \ V(b); E' = the edges of `a` with both endpoints in V'.
pub open spec fn difference_view(a: GraphView, b: GraphView, directed: bool) -> GraphView {
    let vs = a.vertices.difference(b.vertices);
    GraphView { directed, vertices: vs, edges: edges_within(edges_in(a, directed), vs) }
}

pub open spec fn edge_difference_view(a: GraphView, b: GraphView, directed: bool) -> GraphView {
    GraphView {
        directed,
        vertices: a.vertices,
        edges: edges_in(a, directed).difference(edges_in(b, directed)),
    }
}

pub open spec fn sym_diff<A>(x: Set<A>, y: Set<A>) -> Set<A> {
    x.difference(y).union(y.difference(x))
}

pub open spec fn symmetric_difference_view(
    a: GraphView,
    b: GraphView,
    directed: bool,
) -> GraphView {
    GraphView {
        directed,
        vertices: sym_diff(a.vertices, b.vertices),
        edges: sym_diff(edges_in(a, directed), edges_in(b, directed)),
    }
}

pub open spec fn induced_subgraph_view(a: GraphView, subset: Set<Label>) -> GraphView {
    let vs = a.vertices.intersect(subset);
    GraphView { directed: a.directed, vertices: vs, edges: edges_within(a.edges, vs) }
}

/// All possible edges between distinct vertices of `a` that `a` does not
/// have, in `a`'s own directedness.
pub open spec fn complement_view(a: GraphView) -> GraphView {
    GraphView {
        directed: a.directed,
        vertices: a.vertices,
        edges: Set::new(
            |e: EdgeView|
                a.vertices.contains(e.0) && a.vertices.contains(e.1) && (if a.directed {
                    e.0 != e.1
                } else {
                    lex_lt(e.0, e.1)
                }) && !a.edges.contains(e),
        ),
    }
}

pub open spec fn with_directed_view(a: GraphView, directed: bool) -> GraphView {
    GraphView { directed, vertices: a.vertices, edges: edges_in(a, directed) }
}

/// The pairs `(i, j)` of vertex numbers that a random graph on `n` vertices
/// flips a coin for: every ordered pair of distinct numbers when directed,
/// every pair with `i < j` when undirected.
pub open spec fn candidate_pair(directed: bool, n: int, i: int, j: int) -> bool {
    &&& 0 <= i < n
    &&& 0 <= j < n
    &&& if directed { i != j } else { i < j }
}

/// The vertices `v0`, ..., `v{n-1}`.
pub open spec fn numbered_vertices(n: int) -> Set<Label> {
    Set::new(|l: Label| exists|i: nat| i < n && l == label_of(i))
}

/// The edges of the random graph whose coin for the pair `(i, j)` is
/// `flips[i][j]`, among the pairs that come before `(upto_i, upto_j)` in
/// row order.
pub open spec fn flipped_edges(
    directed: bool,
    n: int,
    flips: Seq<Seq<bool>>,
    upto_i: int,
    upto_j: int,
) -> Set<EdgeView> {
    Set::new(
        |e: EdgeView|
            exists|i: nat, j: nat|
                #![trigger label_of(i), label_of(j)]
                (i < upto_i || (i == upto_i && j < upto_j)) && candidate_pair(directed, n, i as int, j as int)
                    && flips[i as int][j as int] && e == norm_edge(
                    directed,
                    label_of(i),
                    label_of(j),
                ),
    )
}

/// The random graph on `v0`, ..., `v{n-1}` with the given coin flips.
pub open spec fn random_view(directed: bool, n: int, flips: Seq<Seq<bool>>) -> GraphView {
    GraphView {
        directed,
        vertices: numbered_vertices(n),
        edges: flipped_edges(directed, n, flips, n, 0),
    }
}

/// The candidate pairs of a random graph on `n` vertices that come before
/// `(i, j)` in the order in which their coins are drawn: row by row, and
/// within a row by column. The coin of a candidate pair `(i, j)` is the
/// draw numbered `pairs_before(directed, n, i, j).len()`, counting from 0.
pub open spec fn pairs_before(directed: bool, n: int, i: int, j: int) -> Seq<(int, int)>
    decreases i, j,
{
    if j > 0 {
        pairs_before(directed, n, i, j - 1) + if candidate_pair(directed, n, i, j - 1) {
            seq![(i, j - 1)]
        } else {
            Seq::empty()
        }
    } else if i > 0 {
        pairs_before(directed, n, i - 1, n)
    } else {
        Seq::empty()
    }
}

/// All candidate pairs of a random graph on `n` vertices, in the order in
/// which their coins are drawn.
pub open spec fn draw_order(directed: bool, n: int) -> Seq<(int, int)> {
    pairs_before(directed, n, n, 0)
}

/// The coin matrix of a random graph whose coins, drawn one after the
/// other in `draw_order`, came up `draws`.
pub open spec fn draws_to_flips(directed: bool, n: int, draws: Seq<bool>) -> Seq<Seq<bool>> {
    Seq::new(
        n as nat,
        |i: int|
            Seq::new(
                n as nat,
                |j: int|
                    candidate_pair(directed, n, i, j) && draws[pairs_before(
                        directed,
                        n,
                        i,
                        j,
                    ).len() as int],
            ),
    )
}

/// `pairs_before` at an earlier position is a prefix of `pairs_before` at
/// a later one.
pub proof fn lemma_pairs_before_prefix(directed: bool, n: int, i: int, j: int, i2: int, j2: int)
    requires
        0 <= i,
        0 <= j <= n,
        0 <= j2 <= n,
        i < i2 || (i == i2 && j <= j2),
    ensures
        pairs_before(directed, n, i, j).len() <= pairs_before(directed, n, i2, j2).len(),
        pairs_before(directed, n, i2, j2).take(pairs_before(directed, n, i, j).len() as int)
            == pairs_before(directed, n, i, j),
    decreases i2, j2,
{
    let a = pairs_before(directed, n, i, j);
    if i == i2 && j == j2 {
        assert(a.take(a.len() as int) =~= a);
    } else if j2 > 0 {
        lemma_pairs_before_prefix(directed, n, i, j, i2, j2 - 1);
        let b = pairs_before(directed, n, i2, j2 - 1);
        let c = pairs_before(directed, n, i2, j2);
        assert(c.take(a.len() as int) =~= b.take(a.len() as int));
    } else {
        lemma_pairs_before_prefix(directed, n, i, j, i2 - 1, n);
    }
}

/// The draw numbered `pairs_before(directed, n, i, j).len()` is the coin of
/// the candidate pair `(i, j)`.
pub proof fn lemma_draw_of_pair(directed: bool, n: int, i: int, j: int)
    requires
        candidate_pair(directed, n, i, j),
    ensures
        pairs_before(directed, n, i, j).len() < draw_order(directed, n).len(),
        draw_order(directed, n)[pairs_before(directed, n, i, j).len() as int] == (i, j),
{
    let a = pairs_before(directed, n, i, j);
    let b = pairs_before(directed, n, i, j + 1);
    assert(b =~= a.push((i, j)));
    lemma_pairs_before_prefix(directed, n, i, j + 1, n, 0);
    let all = draw_order(directed, n);
    assert(all.take(b.len() as int)[a.len() as int] == b[a.len() as int]);
}

/// The graph is in the form that its own operations produce: no self
/// loops, every edge between two of its vertices, and undirected edges
/// stored with the smaller label first.
pub open spec fn well_formed(g: GraphView) -> bool {
    &&& forall|e: EdgeView| #[trigger]
        g.edges.contains(e) ==> g.vertices.contains(e.0) && g.vertices.contains(e.1)
    &&& forall|e: EdgeView| #[trigger] g.edges.contains(e) ==> e.0 != e.1
    &&& !g.directed ==> forall|e: EdgeView| #[trigger] g.edges.contains(e) ==> lex_lt(e.0, e.1)
}

/// The label `"v"` followed by the decimal digits of `i`.
pub open spec fn label_of(i: nat) -> Label {
    seq!['v'] + decimal(i)
}

/// `l` is the label that a new vertex gets: the first of `v{n}`,
/// `v{n+1}`, ... (with `n` the number of vertices) that is not a vertex.
pub open spec fn is_fresh_label(vs: Set<Label>, l: Label) -> bool {
    &&& !vs.contains(l)
    &&& exists|k: nat|
        #![trigger label_of(k)]
        k >= vs.len() && l == label_of(k) && forall|j: nat|
            vs.len() <= j < k ==> vs.contains(#[trigger] label_of(j))
}

/// The label that a new vertex gets, where `vs` are the vertices.
pub open spec fn fresh_label_of(vs: Set<Label>) -> Label {
    choose|l: Label| is_fresh_label(vs, l)
}

/// At most one label is the fresh one.
pub proof fn lemma_fresh_label_unique(vs: Set<Label>, a: Label, b: Label)
    requires
        is_fresh_label(vs, a),
        is_fresh_label(vs, b),
    ensures
        a == b,
{
    let ka = choose|k: nat|
        #![trigger label_of(k)]
        k >= vs.len() && a == label_of(k) && forall|j: nat|
            vs.len() <= j < k ==> vs.contains(#[trigger] label_of(j));
    let kb = choose|k: nat|
        #![trigger label_of(k)]
        k >= vs.len() && b == label_of(k) && forall|j: nat|
            vs.len() <= j < k ==> vs.contains(#[trigger] label_of(j));
    if ka < kb {
        assert(vs.contains(label_of(ka)));
    } else if kb < ka {
        assert(vs.contains(label_of(kb)));
    }
}

proof fn lemma_fresh_label_search(vs: Set<Label>, k: nat)
    requires
        vs.finite(),
        vs.len() <= k <= 2 * vs.len() + 1,
        forall|j: nat| vs.len() <= j < k ==> vs.contains(#[trigger] label_of(j)),
    ensures
        exists|l: Label| is_fresh_label(vs, l),
    decreases 2 * vs.len() + 1 - k,
{
    let n = vs.len();
    if k == 2 * n + 1 {
        lemma_labels_fit(vs, n, k);
    } else if !vs.contains(label_of(k)) {
        assert(is_fresh_label(vs, label_of(k)));
    } else {
        lemma_fresh_label_search(vs, k + 1);
    }
}

/// A finite set of vertices leaves a fresh label, and `fresh_label_of`
/// names it.
pub proof fn lemma_fresh_label_exists(vs: Set<Label>)
    requires
        vs.finite(),
    ensures
        is_fresh_label(vs, fresh_label_of(vs)),
        !vs.contains(fresh_label_of(vs)),
{
    lemma_fresh_label_search(vs, vs.len());
}

/// Decimal digits of `n`, most significant first, without leading zeros.
pub open spec fn decimal(n: nat) -> Seq<char>
    decreases n,
{
    if n < 10 {
        seq![digit_char(n)]
    } else {
        decimal(n / 10).push(digit_char(n % 10))
    }
}

pub open spec fn digit_char(d: nat) -> char {
    if d == 0 {
        '0'
    } else if d == 1 {
        '1'
    } else if d == 2 {
        '2'
    } else if d == 3 {
        '3'
    } else if d == 4 {
        '4'
    } else if d == 5 {
        '5'
    } else if d == 6 {
        '6'
    } else if d == 7 {
        '7'
    } else if d == 8 {
        '8'
    } else {
        '9'
    }
}

proof fn lemma_digit_char_injective(a: nat, b: nat)
    requires
        a < 10,
        b < 10,
        digit_char(a) == digit_char(b),
    ensures
        a == b,
{
}

proof fn lemma_decimal_len(n: nat)
    ensures
        decimal(n).len() >= 1,
        n >= 10 ==> decimal(n).len() >= 2,
    decreases n,
{
    if n >= 10 {
        lemma_decimal_len(n / 10);
    }
}

/// Different numbers have different decimal representations.
pub proof fn lemma_decimal_injective(a: nat, b: nat)
    requires
        decimal(a) == decimal(b),
    ensures
        a == b,
    decreases a,
{
    lemma_decimal_len(a);
    lemma_decimal_len(b);
    if a < 10 && b < 10 {
        assert(decimal(a)[0] == digit_char(a));
        assert(decimal(b)[0] == digit_char(b));
        lemma_digit_char_injective(a, b);
    } else if a >= 10 && b >= 10 {
        let da = decimal(a / 10);
        let db = decimal(b / 10);
        assert(decimal(a).last() == digit_char(a % 10));
        assert(decimal(b).last() == digit_char(b % 10));
        lemma_digit_char_injective(a % 10, b % 10);
        assert(decimal(a).drop_last() =~= da);
        assert(decimal(b).drop_last() =~= db);
        lemma_decimal_injective(a / 10, b / 10);
    }
}

pub proof fn lemma_label_of_injective(a: nat, b: nat)
    requires
        label_of(a) == label_of(b),
    ensures
        a == b,
{
    assert(label_of(a).drop_first() =~= decimal(a));
    assert(label_of(b).drop_first() =~= decimal(b));
    lemma_decimal_injective(a, b);
}

/// A finite set that holds the labels of every number in `[lo, hi)` has at
/// least `hi - lo` elements.
proof fn lemma_labels_fit(vs: Set<Label>, lo: nat, hi: nat)
    requires
        vs.finite(),
        lo <= hi,
        forall|j: nat| lo <= j < hi ==> vs.contains(#[trigger] label_of(j)),
    ensures
        hi - lo <= vs.len(),
{
    let labels = label_range(lo, hi);
    lemma_label_range_len(lo, hi);
    assert(labels.subset_of(vs));
    vstd::set_lib::lemma_len_subset(labels, vs);
}

/// The labels of the numbers in `[lo, hi)`.
pub open spec fn label_range(lo: nat, hi: nat) -> Set<Label> {
    Set::new(|x: Label| exists|j: nat| lo <= j < hi && x == #[trigger] label_of(j))
}

pub proof fn lemma_label_range_len(lo: nat, hi: nat)
    requires
        lo <= hi,
    ensures
        label_range(lo, hi).finite(),
        label_range(lo, hi).len() == hi - lo,
    decreases hi - lo,
{
    if hi == lo {
        assert(label_range(lo, hi) =~= Set::<Label>::empty());
    } else {
        let h1 = (hi - 1) as nat;
        lemma_label_range_len(lo, h1);
        assert(label_range(lo, hi) =~= label_range(lo, h1).insert(label_of(h1)));
        if label_range(lo, h1).contains(label_of(h1)) {
            let j = choose|j: nat| lo <= j < h1 && label_of(h1) == #[trigger] label_of(j);
            lemma_label_of_injective(j, h1);
        }
    }
}

/// The one-character string holding the decimal digit `d`.
fn digit_str(d: u128) -> (s: &'static str)
    requires
        d < 10,
    ensures
        s@ == seq![digit_char(d as nat)],
{
    proof {
        reveal_strlit("0");
        reveal_strlit("1");
        reveal_strlit("2");
        reveal_strlit("3");
        reveal_strlit("4");
        reveal_strlit("5");
        reveal_strlit("6");
        reveal_strlit("7");
        reveal_strlit("8");
        reveal_strlit("9");
    }
    let s = if d == 0 {
        "0"
    } else if d == 1 {
        "1"
    } else if d == 2 {
        "2"
    } else if d == 3 {
        "3"
    } else if d == 4 {
        "4"
    } else if d == 5 {
        "5"
    } else if d == 6 {
        "6"
    } else if d == 7 {
        "7"
    } else if d == 8 {
        "8"
    } else {
        "9"
    };
    assert(s@ =~= seq![digit_char(d as nat)]);
    s
}

/// Appends the decimal digits of `n` to `out`.
pub(crate) fn push_decimal(out: &mut String, n: u128)
    ensures
        final(out)@ == old(out)@ + decimal(n as nat),
    decreases n,
{
    if n < 10 {
        out.append(digit_str(n));
    } else {
        push_decimal(out, n / 10);
        out.append(digit_str(n % 10));
        proof {
            assert(old(out)@ + decimal((n / 10) as nat) + seq![digit_char((n % 10) as nat)]
                =~= old(out)@ + decimal(n as nat));
        }
    }
}

/// The label `"v"` followed by the decimal digits of `i`.
fn label_for(i: u128) -> (s: String)
    ensures
        s@ == label_of(i as nat),
{
    proof {
        reveal_strlit("v");
    }
    let mut s = String::from_str("v");
    push_decimal(&mut s, i);
    proof {
        assert(s@ =~= label_of(i as nat));
    }
    s
}

/// Selects the edges that do not touch `id`.
struct AvoidsVertex<'a> {
    id: &'a str,
}

impl<'a> Selector<Edge> for AvoidsVertex<'a> {
    closed spec fn selects(&self, e: EdgeView) -> bool {
        e.0 != self.id@ && e.1 != self.id@
    }

    fn select(&self, e: &Edge) -> (b: bool) {
        !str_eq(e.0.as_str(), self.id) && !str_eq(e.1.as_str(), self.id)
    }
}

/// Selects the edges with both endpoints in `vs`.
struct WithinVertices<'a> {
    vs: &'a OrdSet<VertexId>,
}

impl<'a> Selector<Edge> for WithinVertices<'a> {
    closed spec fn selects(&self, e: EdgeView) -> bool {
        self.vs@.contains(e.0) && self.vs@.contains(e.1)
    }

    fn select(&self, e: &Edge) -> (b: bool) {
        self.vs.contains(&e.0) && self.vs.contains(&e.1)
    }
}

impl Graph {
    pub fn new(directed: bool) -> (g: Self)
        ensures
            g@ == (GraphView {
                directed,
                vertices: Set::<Label>::empty(),
                edges: Set::<EdgeView>::empty(),
            }),
    {
        Graph { directed, vertices: OrdSet::new(), edges: OrdSet::new() }
    }

    /// Normalizes an edge for storage: undirected edges are sorted so both
    /// insertion orders map to the same set element; directed edges keep
    /// their (from, to) order.
    fn normalize(&self, from: &str, to: &str) -> (e: Edge)
        ensures
            e@ == norm_edge(self.directed, from@, to@),
    {
        let keep = if self.directed {
            true
        } else {
            match compare_str(from, to) {
                Order::Greater => false,
                _ => true,
            }
        };
        if keep {
            (from.to_owned(), to.to_owned())
        } else {
            proof {
                crate::order::lemma_lex_asymmetric(to@, from@);
            }
            (to.to_owned(), from.to_owned())
        }
    }

    pub fn add_vertex(&mut self, id: &str)
        ensures
            final(self)@ == add_vertex_view(old(self)@, id@),
    {
        self.vertices.insert(id.to_owned());
    }

    /// Removes the vertex and every edge that touches it.
    pub fn remove_vertex(&mut self, id: &str)
        ensures
            final(self)@ == remove_vertex_view(old(self)@, id@),
    {
        self.vertices.remove(&id.to_owned());
        let kept = self.edges.filter_with(&AvoidsVertex { id });
        proof {
            assert(kept@ =~= remove_vertex_view(old(self)@, id@).edges);
        }
        self.edges = kept;
    }

    /// Adds an edge and both its endpoints; an edge from a vertex to itself
    /// is ignored (no self loops).
    pub fn add_edge(&mut self, from: &str, to: &str)
        ensures
            final(self)@ == add_edge_view(old(self)@, from@, to@),
    {
        if str_eq(from, to) {
            return ;
        }
        self.vertices.insert(from.to_owned());
        self.vertices.insert(to.to_owned());
        let e = self.normalize(from, to);
        self.edges.insert(e);
    }

    pub fn remove_edge(&mut self, from: &str, to: &str)
        ensures
            final(self)@ == remove_edge_view(old(self)@, from@, to@),
    {
        let e = self.normalize(from, to);
        self.edges.remove(&e);
    }

    pub fn has_edge(&self, from: &str, to: &str) -> (b: bool)
        ensures
            b == has_edge_view(self@, from@, to@),
    {
        self.edges.contains(&self.normalize(from, to))
    }

    /// Generates a fresh vertex label not currently used, e.g. "v0", "v1", ...:
    /// the first of `v{n}`, `v{n+1}`, ... (with `n` the number of vertices)
    /// that is not a vertex.
    pub fn fresh_label(&self) -> (r: VertexId)
        ensures
            is_fresh_label(self@.vertices, r@),
    {
        let n = self.vertices.len();
        let mut i: u128 = n as u128;
        loop
            invariant
                n == self@.vertices.len(),
                self@.vertices.finite(),
                n <= i <= 2 * n,
                forall|j: nat| n <= j < i ==> self@.vertices.contains(#[trigger] label_of(j)),
            decreases 2 * n - i,
        {
            let candidate = label_for(i);
            if !self.vertices.contains(&candidate) {
                return candidate;
            }
            proof {
                lemma_labels_fit(self@.vertices, n as nat, (i + 1) as nat);
            }
            i = i + 1;
        }
    }

    /// Returns this graph's edge set expressed as directed pairs. Undirected
    /// edges expand into both (a,b) and (b,a).
    pub fn edges_as_directed(&self) -> (r: OrdSet<Edge>)
        ensures
            r@ == directed_edges(self.directed, self.edges@),
    {
        if self.directed {
            return self.edges.duplicate();
        }
        let n = self.edges.len();
        let mut out: OrdSet<Edge> = OrdSet::new();
        let mut i: usize = 0;
        while i < n
            invariant
                n == self.edges@.len(),
                i <= n,
                !self.directed,
                ordered::<Edge>(self.edges@).len() == n,
                ordered::<Edge>(self.edges@).to_set() == self.edges@,
                out@ == Set::new(
                    |e: EdgeView|
                        ordered::<Edge>(self.edges@).take(i as int).contains(e)
                            || ordered::<Edge>(self.edges@).take(i as int).contains(swap(e)),
                ),
            decreases n - i,
        {
            let e = self.edges.get(i);
            let ghost o = ordered::<Edge>(self.edges@);
            out.insert((e.0.clone(), e.1.clone()));
            out.insert((e.1.clone(), e.0.clone()));
            proof {
                lemma_take_next(o, i as int);
                assert(out@ =~= Set::new(
                    |e: EdgeView| o.take(i + 1).contains(e) || o.take(i + 1).contains(swap(e)),
                ));
            }
            i = i + 1;
        }
        proof {
            let o = ordered::<Edge>(self.edges@);
            assert(o.take(n as int) =~= o);
            assert(out@ =~= directed_edges(self.directed, self.edges@));
        }
        out
    }

    /// Returns this graph's edge set as undirected pairs (normalized,
    /// smaller label first). A directed a->b and b->a collapse to one
    /// undirected edge {a,b}.
    pub fn edges_as_undirected(&self) -> (r: OrdSet<Edge>)
        ensures
            r@ == undirected_edges(self.directed, self.edges@),
    {
        if !self.directed {
            return self.edges.duplicate();
        }
        let n = self.edges.len();
        let mut out: OrdSet<Edge> = OrdSet::new();
        let mut i: usize = 0;
        while i < n
            invariant
                n == self.edges@.len(),
                i <= n,
                self.directed,
                ordered::<Edge>(self.edges@).len() == n,
                ordered::<Edge>(self.edges@).to_set() == self.edges@,
                out@ == Set::new(
                    |e: EdgeView|
                        lex_le(e.0, e.1) && (ordered::<Edge>(self.edges@).take(i as int).contains(e)
                            || ordered::<Edge>(self.edges@).take(i as int).contains(swap(e))),
                ),
            decreases n - i,
        {
            let e = self.edges.get(i);
            let ghost o = ordered::<Edge>(self.edges@);
            match compare_str(e.0.as_str(), e.1.as_str()) {
                Order::Greater => {
                    out.insert((e.1.clone(), e.0.clone()));
                    proof {
                        crate::order::lemma_lex_asymmetric(e.1@, e.0@);
                    }
                },
                _ => {
                    out.insert((e.0.clone(), e.1.clone()));
                    proof {
                        if e.0@ != e.1@ {
                            crate::order::lemma_lex_asymmetric(e.0@, e.1@);
                        }
                    }
                },
            }
            proof {
                lemma_take_next(o, i as int);
                crate::order::lemma_lex_irreflexive(e.0@);
                assert(out@ =~= Set::new(
                    |e: EdgeView|
                        lex_le(e.0, e.1) && (o.take(i + 1).contains(e) || o.take(i + 1).contains(
                            swap(e),
                        )),
                ));
            }
            i = i + 1;
        }
        proof {
            let o = ordered::<Edge>(self.edges@);
            assert(o.take(n as int) =~= o);
            assert(out@ =~= undirected_edges(self.directed, self.edges@));
        }
        out
    }

    /// Edge set expressed in the requested mode (used by set operations so
    /// two graphs of differing directedness can still be combined).
    fn edges_as(&self, directed: bool) -> (r: OrdSet<Edge>)
        ensures
            r@ == edges_in(self@, directed),
    {
        if directed {
            self.edges_as_directed()
        } else {
            self.edges_as_undirected()
        }
    }

    /// Builds a graph from a vertex set and an edge set that are already in
    /// the target `directed` mode.
    fn from_sets(directed: bool, vertices: OrdSet<VertexId>, edges: OrdSet<Edge>) -> (g: Self)
        ensures
            g@ == (GraphView { directed, vertices: vertices@, edges: edges@ }),
    {
        Graph { directed, vertices, edges }
    }

    pub fn union(a: &Graph, b: &Graph, directed: bool) -> (g: Graph)
        ensures
            g@ == union_view(a@, b@, directed),
    {
        let vertices = a.vertices.union(&b.vertices);
        let edges = a.edges_as(directed).union(&b.edges_as(directed));
        Graph::from_sets(directed, vertices, edges)
    }

    pub fn intersection(a: &Graph, b: &Graph, directed: bool) -> (g: Graph)
        ensures
            g@ == intersection_view(a@, b@, directed),
    {
        let vertices = a.vertices.intersection(&b.vertices);
        let edges = a.edges_as(directed).intersection(&b.edges_as(directed));
        Graph::from_sets(directed, vertices, edges)
    }

    /// The edges of `edges` whose endpoints both lie in `vs`.
    fn edges_among(edges: &OrdSet<Edge>, vs: &OrdSet<VertexId>) -> (r: OrdSet<Edge>)
        ensures
            r@ == edges_within(edges@, vs@),
    {
        let r = edges.filter_with(&WithinVertices { vs });
        proof {
            assert(r@ =~= edges_within(edges@, vs@));
        }
        r
    }

    /// V' = V(a) \ V(b), E' = edges of a (restricted to the mode) with both
    /// endpoints surviving in V'.
    pub fn difference(a: &Graph, b: &Graph, directed: bool) -> (g: Graph)
        ensures
            g@ == difference_view(a@, b@, directed),
    {
        let vertices = a.vertices.difference(&b.vertices);
        let edges = Graph::edges_among(&a.edges_as(directed), &vertices);
        Graph::from_sets(directed, vertices, edges)
    }

    /// Edge-only difference: keeps V(a), removes edges that also appear in b.
    pub fn edge_difference(a: &Graph, b: &Graph, directed: bool) -> (g: Graph)
        ensures
            g@ == edge_difference_view(a@, b@, directed),
    {
        let vertices = a.vertices.duplicate();
        let edges = a.edges_as(directed).difference(&b.edges_as(directed));
        Graph::from_sets(directed, vertices, edges)
    }

    pub fn symmetric_difference(a: &Graph, b: &Graph, directed: bool) -> (g: Graph)
        ensures
            g@ == symmetric_difference_view(a@, b@, directed),
    {
        let vertices = a.vertices.symmetric_difference(&b.vertices);
        let edges = a.edges_as(directed).symmetric_difference(&b.edges_as(directed));
        Graph::from_sets(directed, vertices, edges)
    }

    /// Induced subgraph on the given vertex subset.
    pub fn induced_subgraph(a: &Graph, subset: &OrdSet<VertexId>) -> (g: Graph)
        ensures
            g@ == induced_subgraph_view(a@, subset@),
    {
        let vertices = a.vertices.intersection(subset);
        let edges = Graph::edges_among(&a.edges, &vertices);
        Graph::from_sets(a.directed, vertices, edges)
    }

    /// Complement: same vertex set, edge set is "all possible edges minus
    /// the existing ones" in the graph's own directedness.
    pub fn complement(a: &Graph) -> (g: Graph)
        ensures
            g@ == complement_view(a@),
    {
        let n = a.vertices.len();
        let ghost vs = ordered::<VertexId>(a.vertices@);
        let ghost target = complement_view(a@).edges;
        let mut edges: OrdSet<Edge> = OrdSet::new();
        let mut i: usize = 0;
        while i < n
            invariant
                n == a.vertices@.len(),
                i <= n,
                vs == ordered::<VertexId>(a.vertices@),
                vs.len() == n,
                strictly_sorted::<VertexId>(vs),
                vs.to_set() == a.vertices@,
                target == complement_view(a@).edges,
                edges@ == target.filter(|e: EdgeView| vs.take(i as int).contains(e.0)),
            decreases n - i,
        {
            let u = a.vertices.get(i);
            let mut j: usize = if a.directed {
                0
            } else {
                i + 1
            };
            while j < n
                invariant
                    n == a.vertices@.len(),
                    i < n,
                    j <= n,
                    !a.directed ==> i < j,
                    vs == ordered::<VertexId>(a.vertices@),
                    vs.len() == n,
                    strictly_sorted::<VertexId>(vs),
                    vs.to_set() == a.vertices@,
                    u@ == vs[i as int],
                    target == complement_view(a@).edges,
                    edges@ == target.filter(
                        |e: EdgeView|
                            vs.take(i as int).contains(e.0) || (e.0 == vs[i as int]
                                && exists|k: int|
                                #![trigger vs[k]]
                                (if a.directed {
                                    0
                                } else {
                                    i + 1
                                }) <= k < j && vs[k] == e.1),
                    ),
                decreases n - j,
            {
                let v = a.vertices.get(j);
                let differ = !str_eq(u.as_str(), v.as_str());
                if differ {
                    let e: Edge = (u.clone(), v.clone());
                    if !a.edges.contains(&e) {
                        edges.insert(e);
                    }
                }
                proof {
                    let lo: int = if a.directed {
                        0
                    } else {
                        i + 1
                    };
                    if !a.directed {
                        assert(String::before(vs[i as int], vs[j as int]));
                    }
                    assert(vs.to_set().contains(vs[j as int]));
                    assert(vs.to_set().contains(vs[i as int]));
                    assert forall|e: EdgeView|
                        #[trigger] edges@.contains(e) <==> target.contains(e) && (vs.take(
                            i as int,
                        ).contains(e.0) || (e.0 == vs[i as int] && exists|k: int|
                            #![trigger vs[k]]
                            lo <= k < j + 1 && vs[k] == e.1)) by {
                        if target.contains(e) && e.0 == vs[i as int] && e.1 == vs[j as int] {
                            assert(lo <= j < j + 1 && vs[j as int] == e.1);
                            if !a.directed {
                                assert(e.0 != e.1) by {
                                    crate::order::lemma_lex_irreflexive(e.0);
                                }
                            }
                        }
                        if target.contains(e) && e.0 == vs[i as int] && (exists|k: int|
                            #![trigger vs[k]]
                            lo <= k < j + 1 && vs[k] == e.1) && e.1 != vs[j as int] {
                            let k = choose|k: int| #![trigger vs[k]] lo <= k < j + 1 && vs[k] == e.1;
                            assert(lo <= k < j && vs[k] == e.1);
                        }
                        if vs.take(i as int).contains(e.0) {
                            let m = choose|m: int| 0 <= m < i && vs.take(i as int)[m] == e.0;
                            assert(vs[m] == e.0);
                            assert(String::before(vs[m], vs[i as int]));
                            crate::order::lemma_lex_irreflexive(vs[m]);
                        }
                    }
                    assert(edges@ =~= target.filter(
                        |e: EdgeView|
                            vs.take(i as int).contains(e.0) || (e.0 == vs[i as int]
                                && exists|k: int| #![trigger vs[k]] lo <= k < j + 1 && vs[k] == e.1),
                    ));
                }
                j = j + 1;
            }
            proof {
                let lo: int = if a.directed {
                    0
                } else {
                    i + 1
                };
                lemma_take_next(vs, i as int);
                assert forall|e: EdgeView|
                    #[trigger] edges@.contains(e) <==> target.contains(e) && vs.take(i + 1).contains(
                        e.0,
                    ) by {
                    if target.contains(e) && e.0 == vs[i as int] {
                        assert(a.vertices@.contains(e.1));
                        let k = choose|k: int| 0 <= k < vs.len() && vs[k] == e.1;
                        if !a.directed {
                            assert(lex_lt(e.0, e.1));
                            if k < i {
                                assert(String::before(vs[k], vs[i as int]));
                                crate::order::lemma_lex_asymmetric(e.0, e.1);
                            }
                            if k == i {
                                crate::order::lemma_lex_irreflexive(e.0);
                            }
                        }
                        assert(lo <= k < n && vs[k] == e.1);
                    }
                }
                assert(edges@ =~= target.filter(|e: EdgeView| vs.take(i + 1).contains(e.0)));
            }
            i = i + 1;
        }
        proof {
            assert(vs.take(n as int) =~= vs);
            assert(edges@ =~= target);
        }
        Graph::from_sets(a.directed, a.vertices.duplicate(), edges)
    }

    /// A copy of this graph.
    pub fn duplicate(&self) -> (g: Graph)
        ensures
            g@ == self@,
    {
        Graph {
            directed: self.directed,
            vertices: self.vertices.duplicate(),
            edges: self.edges.duplicate(),
        }
    }

    /// Reinterprets this graph as directed/undirected, converting the edge
    /// set accordingly (collapsing or duplicating as needed).
    pub fn with_directed(a: &Graph, directed: bool) -> (g: Graph)
        ensures
            g@ == with_directed_view(a@, directed),
    {
        let edges = a.edges_as(directed);
        Graph::from_sets(directed, a.vertices.duplicate(), edges)
    }
    /// The random graph on `v0`, ..., `v{n-1}`: the pair `(i, j)` becomes an
    /// edge where the coin `flips[i][j]` came up `true`. Coins are read for
    /// every ordered pair of distinct vertices when directed, and for the
    /// pairs with `i < j` when undirected, row by row.
    pub fn random(directed: bool, n: usize, flips: &Vec<Vec<bool>>) -> (g: Graph)
        requires
            flips@.len() == n,
            forall|i: int| 0 <= i < n ==> (#[trigger] flips@[i])@.len() == n,
        ensures
            g@ == random_view(directed, n as int, flips@.map_values(|row: Vec<bool>| row@)),
    {
        let ghost fs = flips@.map_values(|row: Vec<bool>| row@);
        let mut g = Graph::new(directed);
        let mut labels: Vec<VertexId> = Vec::new();
        let mut k: usize = 0;
        while k < n
            invariant
                k <= n,
                n < u128::MAX,
                labels@.len() == k,
                forall|m: int| 0 <= m < k ==> (#[trigger] labels@[m])@ == label_of(m as nat),
                g@.directed == directed,
                g@.edges == Set::<EdgeView>::empty(),
                g@.vertices == numbered_vertices(k as int),
            decreases n - k,
        {
            let l = label_for(k as u128);
            g.add_vertex(l.as_str());
            labels.push(l);
            proof {
                assert(g@.vertices =~= numbered_vertices(k + 1)) by {
                    assert forall|x: Label| #[trigger]
                        numbered_vertices(k + 1).contains(x) implies g@.vertices.contains(x) by {
                        let i = choose|i: nat| i < k + 1 && x == label_of(i);
                        if i < k {
                            assert(numbered_vertices(k as int).contains(x));
                        }
                    }
                    assert(numbered_vertices(k + 1).contains(label_of(k as nat)));
                }
            }
            k = k + 1;
        }
        assert(flipped_edges(directed, n as int, fs, 0, 0) =~= Set::<EdgeView>::empty());
        let mut i: usize = 0;
        while i < n
            invariant
                i <= n,
                labels@.len() == n,
                forall|m: int| 0 <= m < n ==> (#[trigger] labels@[m])@ == label_of(m as nat),
                flips@.len() == n,
                forall|m: int| 0 <= m < n ==> (#[trigger] flips@[m])@.len() == n,
                fs == flips@.map_values(|row: Vec<bool>| row@),
                g@.directed == directed,
                g@.vertices == numbered_vertices(n as int),
                g@.edges == flipped_edges(directed, n as int, fs, i as int, 0),
            decreases n - i,
        {
            let mut j: usize = 0;
            while j < n
                invariant
                    i < n,
                    j <= n,
                    labels@.len() == n,
                    forall|m: int| 0 <= m < n ==> (#[trigger] labels@[m])@ == label_of(m as nat),
                    flips@.len() == n,
                    forall|m: int| 0 <= m < n ==> (#[trigger] flips@[m])@.len() == n,
                    fs == flips@.map_values(|row: Vec<bool>| row@),
                    g@.directed == directed,
                    g@.vertices == numbered_vertices(n as int),
                    g@.edges == flipped_edges(directed, n as int, fs, i as int, j as int),
                decreases n - j,
            {
                let candidate = if directed { j != i } else { i < j };
                let ghost before = g@;
                if candidate && flips[i][j] {
                    proof {
                        if label_of(i as nat) == label_of(j as nat) {
                            lemma_label_of_injective(i as nat, j as nat);
                        }
                        assert(numbered_vertices(n as int).contains(label_of(i as nat)));
                        assert(numbered_vertices(n as int).contains(label_of(j as nat)));
                    }
                    g.add_edge(labels[i].as_str(), labels[j].as_str());
                    proof {
                        assert(g@.vertices =~= numbered_vertices(n as int));
                    }
                }
                proof {
                    let next = flipped_edges(directed, n as int, fs, i as int, j + 1);
                    let prev = flipped_edges(directed, n as int, fs, i as int, j as int);
                    assert(fs[i as int] == flips@[i as int]@);
                    assert forall|e: EdgeView| #[trigger] next.contains(e) implies g@.edges.contains(
                        e,
                    ) by {
                        let (a, b) = choose|a: nat, b: nat|
                            #![trigger label_of(a), label_of(b)]
                            (a < i || (a == i && b < j + 1)) && candidate_pair(
                                directed,
                                n as int,
                                a as int,
                                b as int,
                            ) && fs[a as int][b as int] && e == norm_edge(
                                directed,
                                label_of(a),
                                label_of(b),
                            );
                        if a < i || b < j {
                            assert(prev.contains(e));
                        }
                    }
                    assert forall|e: EdgeView| #[trigger] g@.edges.contains(e) implies next.contains(
                        e,
                    ) by {
                        if prev.contains(e) {
                            let (a, b) = choose|a: nat, b: nat|
                                #![trigger label_of(a), label_of(b)]
                                (a < i || (a == i && b < j)) && candidate_pair(
                                    directed,
                                    n as int,
                                    a as int,
                                    b as int,
                                ) && fs[a as int][b as int] && e == norm_edge(
                                    directed,
                                    label_of(a),
                                    label_of(b),
                                );
                            assert(label_of(a) == label_of(a) && label_of(b) == label_of(b));
                        } else {
                            assert(label_of(i as nat) == label_of(i as nat) && label_of(j as nat)
                                == label_of(j as nat));
                        }
                    }
                    assert(g@.edges =~= next);
                }
                j = j + 1;
            }
            proof {
                assert(flipped_edges(directed, n as int, fs, i as int, n as int) =~= flipped_edges(
                    directed,
                    n as int,
                    fs,
                    i + 1,
                    0,
                ));
            }
            i = i + 1;
        }
        g
    }
}

/// How many coins a random graph on `n` vertices draws: one for each
/// candidate pair; `None` where that number does not fit in `usize`.
pub fn draw_count(directed: bool, n: usize) -> (c: Option<usize>)
    ensures
        c matches Some(k) ==> k == draw_order(directed, n as int).len(),
        c is None ==> draw_order(directed, n as int).len() > usize::MAX,
{
    let mut count: usize = 0;
    let mut i: usize = 0;
    while i < n
        invariant
            i <= n,
            count == pairs_before(directed, n as int, i as int, 0).len(),
        decreases n - i,
    {
        let mut j: usize = 0;
        while j < n
            invariant
                i < n,
                j <= n,
                count == pairs_before(directed, n as int, i as int, j as int).len(),
            decreases n - j,
        {
            let candidate = if directed { j != i } else { i < j };
            if candidate {
                if count == usize::MAX {
                    proof {
                        lemma_pairs_before_prefix(directed, n as int, i as int, j + 1, n as int, 0);
                    }
                    return None;
                }
                count = count + 1;
            }
            j = j + 1;
        }
        i = i + 1;
    }
    Some(count)
}

/// The coin matrix of a random graph on `n` vertices whose coins, drawn
/// one after the other in `draw_order`, came up `draws`; `Graph::random`
/// takes it.
pub fn flips_from_draws(directed: bool, n: usize, draws: &Vec<bool>) -> (flips: Vec<Vec<bool>>)
    requires
        draws@.len() == draw_order(directed, n as int).len(),
    ensures
        flips@.len() == n,
        forall|i: int| 0 <= i < n ==> (#[trigger] flips@[i])@.len() == n,
        flips@.map_values(|row: Vec<bool>| row@) == draws_to_flips(directed, n as int, draws@),
{
    let ghost want = draws_to_flips(directed, n as int, draws@);
    let dn = draws.len();
    let mut flips: Vec<Vec<bool>> = Vec::new();
    let mut k: usize = 0;
    let mut i: usize = 0;
    while i < n
        invariant
            i <= n,
            draws@.len() == draw_order(directed, n as int).len(),
            dn == draws@.len(),
            want == draws_to_flips(directed, n as int, draws@),
            k == pairs_before(directed, n as int, i as int, 0).len(),
            flips@.len() == i,
            forall|a: int| 0 <= a < i ==> (#[trigger] flips@[a])@ == want[a],
        decreases n - i,
    {
        let mut row: Vec<bool> = Vec::new();
        let mut j: usize = 0;
        while j < n
            invariant
                i < n,
                j <= n,
                draws@.len() == draw_order(directed, n as int).len(),
                dn == draws@.len(),
                want == draws_to_flips(directed, n as int, draws@),
                k == pairs_before(directed, n as int, i as int, j as int).len(),
                row@.len() == j,
                forall|b: int| 0 <= b < j ==> #[trigger] row@[b] == want[i as int][b],
            decreases n - j,
        {
            let candidate = if directed { j != i } else { i < j };
            if candidate {
                proof {
                    lemma_draw_of_pair(directed, n as int, i as int, j as int);
                }
                row.push(draws[k]);
                k = k + 1;
            } else {
                row.push(false);
            }
            j = j + 1;
        }
        proof {
            assert(row@ =~= want[i as int]);
        }
        flips.push(row);
        i = i + 1;
    }
    proof {
        assert(flips@.map_values(|row: Vec<bool>| row@) =~= want);
    }
    flips
}

} // verus!
