//! Evaluation of set expressions, boolean conditions and statements
//! against a context of named graphs and named sets.
use vstd::prelude::*;
use vstd::string::*;
use crate::graph::{Edge, EdgeView, Graph, GraphView, Label, VertexId};
use crate::namemap::{Dup, NameMap};
use crate::order::{str_eq, Keyed};
use crate::ordset::{ordered, OrdSet};
use crate::expr::syntax::{
    lemma_comprehension_view, quals_view, BoolExpr, BoolExprV, Output, OutputV, Qual, QualV,
    SetExpr, SetExprV, Stmt, StmtV, Term, TermV,
};
use crate::expr::value::{kind_name, SetVal, SetValue};

verus! {

/// Upper bound on the number of variable bindings a comprehension may build.
pub const MAX_COMPREHENSION_STATES: usize = 200000;

/// The named graphs and named sets that expressions refer to.
pub struct EvalCtx<'a> {
    pub graphs: NameMap<&'a Graph>,
    pub named: &'a NameMap<SetValue>,
}

pub struct CtxV {
    pub graphs: Map<Seq<char>, GraphView>,
    pub named: Map<Seq<char>, SetVal>,
}

impl<'a> View for EvalCtx<'a> {
    type V = CtxV;

    open spec fn view(&self) -> CtxV {
        CtxV { graphs: self.graphs@, named: self.named@ }
    }
}

/// A value bound to a variable: a vertex or an edge.
pub enum Bound {
    Vertex(VertexId),
    Edge(Edge),
}

pub enum BoundV {
    Vertex(Label),
    Edge(EdgeView),
}

impl View for Bound {
    type V = BoundV;

    open spec fn view(&self) -> BoundV {
        match self {
            Bound::Vertex(v) => BoundV::Vertex(v@),
            Bound::Edge(e) => BoundV::Edge(e@),
        }
    }
}

impl Dup for Bound {
    fn dup(&self) -> (r: Self) {
        match self {
            Bound::Vertex(v) => Bound::Vertex(v.clone()),
            Bound::Edge(e) => Bound::Edge(e.duplicate()),
        }
    }
}

impl Dup for SetValue {
    fn dup(&self) -> (r: Self) {
        self.duplicate()
    }
}

/// Variable bindings.
pub type Env = NameMap<Bound>;

pub type EnvV = Map<Seq<char>, BoundV>;

pub enum SetOp {
    Union,
    Intersect,
    Diff,
    SymDiff,
}

pub open spec fn apply_op<A>(op: SetOp, x: Set<A>, y: Set<A>) -> Set<A> {
    match op {
        SetOp::Union => x.union(y),
        SetOp::Intersect => x.intersect(y),
        SetOp::Diff => x.difference(y),
        SetOp::SymDiff => x.difference(y).union(y.difference(x)),
    }
}

/// Combines two sets of the same kind; an empty vertex set also counts as
/// an empty edge set.
pub open spec fn binary_op_spec(op: SetOp, a: SetVal, b: SetVal) -> Result<SetVal, ()> {
    match (a, b) {
        (SetVal::Vertices(x), SetVal::Vertices(y)) => Ok(SetVal::Vertices(apply_op(op, x, y))),
        (SetVal::Edges(x), SetVal::Edges(y)) => Ok(SetVal::Edges(apply_op(op, x, y))),
        (SetVal::Vertices(x), SetVal::Edges(y)) => if x.len() == 0 {
            Ok(SetVal::Edges(apply_op(op, Set::empty(), y)))
        } else {
            Err(())
        },
        (SetVal::Edges(x), SetVal::Vertices(y)) => if y.len() == 0 {
            Ok(SetVal::Edges(apply_op(op, x, Set::empty())))
        } else {
            Err(())
        },
    }
}

pub open spec fn lift2(
    op: SetOp,
    a: Result<SetVal, ()>,
    b: Result<SetVal, ()>,
) -> Result<SetVal, ()> {
    match (a, b) {
        (Ok(x), Ok(y)) => binary_op_spec(op, x, y),
        _ => Err(()),
    }
}

/// The elements of a set in increasing order, as bindable values.
pub open spec fn bound_seq(d: SetVal) -> Seq<BoundV> {
    match d {
        SetVal::Vertices(s) => ordered::<VertexId>(s).map_values(|v: Label| BoundV::Vertex(v)),
        SetVal::Edges(s) => ordered::<Edge>(s).map_values(|e: EdgeView| BoundV::Edge(e)),
    }
}

/// Every environment of `envs`, extended by `var` bound to each element of
/// `elems` in turn.
pub open spec fn extend(envs: Seq<EnvV>, var: Seq<char>, elems: Seq<BoundV>) -> Seq<EnvV>
    decreases envs.len(),
{
    if envs.len() == 0 {
        Seq::empty()
    } else {
        extend(envs.drop_last(), var, elems) + elems.map_values(
            |b: BoundV| envs.last().insert(var, b),
        )
    }
}

pub open spec fn require_vertex_spec(env: EnvV, name: Seq<char>) -> Result<Label, ()> {
    if env.contains_key(name) {
        match env[name] {
            BoundV::Vertex(v) => Ok(v),
            BoundV::Edge(_) => Err(()),
        }
    } else {
        Err(())
    }
}

pub open spec fn term_spec(t: TermV, env: EnvV) -> Result<BoundV, ()> {
    match t {
        TermV::Var(n) => if env.contains_key(n) {
            Ok(env[n])
        } else {
            Err(())
        },
        TermV::Pair(a, b) => match (require_vertex_spec(env, a), require_vertex_spec(env, b)) {
            (Ok(x), Ok(y)) => Ok(BoundV::Edge((x, y))),
            _ => Err(()),
        },
    }
}

pub open spec fn member_spec(v: BoundV, s: SetVal) -> Result<bool, ()> {
    match (v, s) {
        (BoundV::Vertex(x), SetVal::Vertices(set)) => Ok(set.contains(x)),
        (BoundV::Edge(x), SetVal::Edges(set)) => Ok(set.contains(x)),
        _ => Err(()),
    }
}

pub open spec fn subset_spec(a: SetVal, b: SetVal) -> Result<bool, ()> {
    match (a, b) {
        (SetVal::Vertices(x), SetVal::Vertices(y)) => Ok(x.subset_of(y)),
        (SetVal::Edges(x), SetVal::Edges(y)) => Ok(x.subset_of(y)),
        (SetVal::Vertices(x), SetVal::Edges(_)) => if x.len() == 0 {
            Ok(true)
        } else {
            Err(())
        },
        (SetVal::Edges(x), SetVal::Vertices(_)) => if x.len() == 0 {
            Ok(true)
        } else {
            Err(())
        },
    }
}

/// The value of a set expression.
pub open spec fn eval_set_spec(e: SetExprV, c: CtxV) -> Result<SetVal, ()>
    decreases e, 2int, 0int,
{
    match e {
        SetExprV::Name(n) => if c.named.contains_key(n) {
            Ok(c.named[n])
        } else {
            Err(())
        },
        SetExprV::GraphVertices(g) => if c.graphs.contains_key(g) {
            Ok(SetVal::Vertices(c.graphs[g].vertices))
        } else {
            Err(())
        },
        SetExprV::GraphEdges(g) => if c.graphs.contains_key(g) {
            Ok(SetVal::Edges(c.graphs[g].edges))
        } else {
            Err(())
        },
        SetExprV::Empty => Ok(SetVal::Vertices(Set::empty())),
        SetExprV::Union(a, b) => lift2(SetOp::Union, eval_set_spec(*a, c), eval_set_spec(*b, c)),
        SetExprV::Intersect(a, b) => lift2(
            SetOp::Intersect,
            eval_set_spec(*a, c),
            eval_set_spec(*b, c),
        ),
        SetExprV::Diff(a, b) => lift2(SetOp::Diff, eval_set_spec(*a, c), eval_set_spec(*b, c)),
        SetExprV::SymDiff(a, b) => lift2(
            SetOp::SymDiff,
            eval_set_spec(*a, c),
            eval_set_spec(*b, c),
        ),
        SetExprV::Comprehension(out, quals) => match comp_quals(quals, 0, seq![Map::empty()], c) {
            Ok(envs) => output_spec(out, envs, output_ranges_over_edges(out, quals, c)),
            Err(_) => Err(()),
        },
    }
}

/// The environments that survive the qualifiers from the `k`-th on,
/// starting from `envs`.
pub open spec fn comp_quals(quals: Seq<QualV>, k: int, envs: Seq<EnvV>, c: CtxV) -> Result<
    Seq<EnvV>,
    (),
>
    decreases quals, 1int, quals.len() - k,
{
    if k < 0 || k >= quals.len() {
        Ok(envs)
    } else {
        match quals[k] {
            QualV::Binder(var, dom) => {
                if exists|i: int| 0 <= i < envs.len() && (#[trigger] envs[i]).contains_key(var) {
                    Err(())
                } else {
                    match eval_set_spec(dom, c) {
                        Ok(d) => {
                            let next = extend(envs, var, bound_seq(d));
                            if next.len() > MAX_COMPREHENSION_STATES {
                                Err(())
                            } else {
                                comp_quals(quals, k + 1, next, c)
                            }
                        },
                        Err(_) => Err(()),
                    }
                }
            },
            QualV::Guard(pred) => match filter_envs(pred, envs, c) {
                Ok(kept) => comp_quals(quals, k + 1, kept, c),
                Err(_) => Err(()),
            },
        }
    }
}

/// Whether a binder of `x` among the qualifiers from the `k`-th on ranges
/// over a set of edges.
pub open spec fn edge_binder(quals: Seq<QualV>, k: int, x: Seq<char>, c: CtxV) -> bool
    decreases quals, 1int, quals.len() - k,
{
    if k < 0 || k >= quals.len() {
        false
    } else {
        match quals[k] {
            QualV::Binder(var, dom) => (var == x && eval_set_spec(dom, c) matches Ok(
                SetVal::Edges(_),
            )) || edge_binder(quals, k + 1, x, c),
            QualV::Guard(_) => edge_binder(quals, k + 1, x, c),
        }
    }
}

/// Whether the output variable of a comprehension is bound to edges: its
/// kind follows the domain of its binder.
pub open spec fn output_ranges_over_edges(out: OutputV, quals: Seq<QualV>, c: CtxV) -> bool
    decreases quals, 2int, 0int,
{
    match out {
        OutputV::Var(x) => edge_binder(quals, 0, x, c),
        OutputV::Pair(_, _) => true,
    }
}

/// The environments of `envs` in which `pred` holds; an error if it cannot
/// be decided in one of them.
pub open spec fn filter_envs(pred: BoolExprV, envs: Seq<EnvV>, c: CtxV) -> Result<Seq<EnvV>, ()>
    decreases pred, 3int, envs.len(),
{
    if envs.len() == 0 {
        Ok(Seq::empty())
    } else {
        match (eval_bool_spec(pred, c, envs.last()), filter_envs(pred, envs.drop_last(), c)) {
            (Ok(b), Ok(kept)) => Ok(
                if b {
                    kept.push(envs.last())
                } else {
                    kept
                },
            ),
            _ => Err(()),
        }
    }
}

/// The set a comprehension produces from its surviving environments: the
/// values of the output variable, a set of edges where `edges` says its
/// binder ranges over edges (so also when no environment survives), or the
/// pairs built from two vertex variables.
pub open spec fn output_spec(out: OutputV, envs: Seq<EnvV>, edges: bool) -> Result<SetVal, ()> {
    match out {
        OutputV::Var(name) => {
            if exists|i: int| 0 <= i < envs.len() && !(#[trigger] envs[i]).contains_key(name) {
                Err(())
            } else if edges {
                Ok(
                    SetVal::Edges(
                        Set::new(
                            |x: EdgeView|
                                exists|i: int|
                                    0 <= i < envs.len() && (#[trigger] envs[i])[name]
                                        == BoundV::Edge(x),
                        ),
                    ),
                )
            } else {
                Ok(
                    SetVal::Vertices(
                        Set::new(
                            |x: Label|
                                exists|i: int|
                                    0 <= i < envs.len() && (#[trigger] envs[i])[name]
                                        == BoundV::Vertex(x),
                        ),
                    ),
                )
            }
        },
        OutputV::Pair(a, b) => {
            if exists|i: int|
                0 <= i < envs.len() && (require_vertex_spec(#[trigger] envs[i], a) is Err
                    || require_vertex_spec(envs[i], b) is Err) {
                Err(())
            } else {
                Ok(
                    SetVal::Edges(
                        Set::new(
                            |x: EdgeView|
                                exists|i: int|
                                    0 <= i < envs.len() && x == (
                                        require_vertex_spec(#[trigger] envs[i], a)->Ok_0,
                                        require_vertex_spec(envs[i], b)->Ok_0,
                                    ),
                        ),
                    ),
                )
            }
        },
    }
}

/// The truth value of a condition under the bindings `env`.
pub open spec fn eval_bool_spec(b: BoolExprV, c: CtxV, env: EnvV) -> Result<bool, ()>
    decreases b, 2int, 0int,
{
    match b {
        BoolExprV::Eq(x, y) => match (term_spec(x, env), term_spec(y, env)) {
            (Ok(p), Ok(q)) => Ok(p == q),
            _ => Err(()),
        },
        BoolExprV::Ne(x, y) => match (term_spec(x, env), term_spec(y, env)) {
            (Ok(p), Ok(q)) => Ok(p != q),
            _ => Err(()),
        },
        BoolExprV::MemberOf(t, s) => match (term_spec(t, env), eval_set_spec(s, c)) {
            (Ok(v), Ok(set)) => member_spec(v, set),
            _ => Err(()),
        },
        BoolExprV::NotMemberOf(t, s) => match (term_spec(t, env), eval_set_spec(s, c)) {
            (Ok(v), Ok(set)) => match member_spec(v, set) {
                Ok(r) => Ok(!r),
                Err(_) => Err(()),
            },
            _ => Err(()),
        },
        BoolExprV::Subset(x, y) => match (eval_set_spec(x, c), eval_set_spec(y, c)) {
            (Ok(p), Ok(q)) => subset_spec(p, q),
            _ => Err(()),
        },
        BoolExprV::And(x, y) => match eval_bool_spec(*x, c, env) {
            Ok(true) => eval_bool_spec(*y, c, env),
            Ok(false) => Ok(false),
            Err(_) => Err(()),
        },
        BoolExprV::Or(x, y) => match eval_bool_spec(*x, c, env) {
            Ok(true) => Ok(true),
            Ok(false) => eval_bool_spec(*y, c, env),
            Err(_) => Err(()),
        },
        BoolExprV::Not(x) => match eval_bool_spec(*x, c, env) {
            Ok(r) => Ok(!r),
            Err(_) => Err(()),
        },
        BoolExprV::ForAll(var, dom, _) => if env.contains_key(var) {
            Err(())
        } else {
            match eval_set_spec(dom, c) {
                Ok(d) => quant_spec(b, bound_seq(d), 0, c, env),
                Err(_) => Err(()),
            }
        },
        BoolExprV::Exists(var, dom, _) => if env.contains_key(var) {
            Err(())
        } else {
            match eval_set_spec(dom, c) {
                Ok(d) => quant_spec(b, bound_seq(d), 0, c, env),
                Err(_) => Err(()),
            }
        },
    }
}

/// A quantifier over `elems` from the `i`-th on, stopping at the first
/// element that decides it.
pub open spec fn quant_spec(b: BoolExprV, elems: Seq<BoundV>, i: int, c: CtxV, env: EnvV) -> Result<
    bool,
    (),
>
    decreases b, 1int, elems.len() - i,
{
    match b {
        BoolExprV::ForAll(var, _, body) => if i < 0 || i >= elems.len() {
            Ok(true)
        } else {
            match eval_bool_spec(*body, c, env.insert(var, elems[i])) {
                Ok(true) => quant_spec(b, elems, i + 1, c, env),
                Ok(false) => Ok(false),
                Err(_) => Err(()),
            }
        },
        BoolExprV::Exists(var, _, body) => if i < 0 || i >= elems.len() {
            Ok(false)
        } else {
            match eval_bool_spec(*body, c, env.insert(var, elems[i])) {
                Ok(true) => Ok(true),
                Ok(false) => quant_spec(b, elems, i + 1, c, env),
                Err(_) => Err(()),
            }
        },
        _ => Err(()),
    }
}

pub open spec fn res_view<T: View>(r: Result<T, String>) -> Result<T::V, ()> {
    match r {
        Ok(v) => Ok(v@),
        Err(_) => Err(()),
    }
}

fn text3(a: &str, b: &str, c: &str) -> (s: String)
    ensures
        s@ == a@ + b@ + c@,
{
    let mut s = String::from_str(a);
    s.append(b);
    s.append(c);
    s
}

fn apply_set_op<K: Keyed>(op: &SetOp, x: &OrdSet<K>, y: &OrdSet<K>) -> (r: OrdSet<K>)
    ensures
        r@ == apply_op(*op, x@, y@),
{
    match op {
        SetOp::Union => x.union(y),
        SetOp::Intersect => x.intersection(y),
        SetOp::Diff => x.difference(y),
        SetOp::SymDiff => x.symmetric_difference(y),
    }
}

/// The symbol by which a type error names a set operation.
pub open spec fn op_symbol(op: SetOp) -> Seq<char> {
    match op {
        SetOp::Union => "∪"@,
        SetOp::Intersect => "∩"@,
        SetOp::Diff => "\\"@,
        SetOp::SymDiff => "^"@,
    }
}

/// The message for an operation, named by `symbol`, on a non-empty set
/// of one kind and a set of the other.
pub open spec fn mismatch_text(symbol: Seq<char>, a: SetVal, b: SetVal) -> Seq<char> {
    "Typfehler bei '"@ + symbol + "': "@ + kind_name(a) + " und "@ + kind_name(b)
        + " passen nicht zusammen"@
}

/// The message for a set operation on a vertex set and an edge set.
pub open spec fn type_mismatch_text(op: SetOp, a: SetVal, b: SetVal) -> Seq<char> {
    mismatch_text(op_symbol(op), a, b)
}

pub open spec fn unbound_text(name: Seq<char>) -> Seq<char> {
    "Variable \""@ + name + "\" ist nicht gebunden"@
}

pub open spec fn rebound_text(name: Seq<char>) -> Seq<char> {
    "Variable \""@ + name + "\" ist bereits gebunden"@
}

pub open spec fn member_mismatch_text() -> Seq<char> {
    "Typfehler: Knoten können nicht in einer Kantenmenge enthalten sein (und umgekehrt)"@
}

pub open spec fn too_many_text() -> Seq<char> {
    "Ausdruck zu groß (zu viele Kombinationen) — bitte einschränken"@
}

/// Why `name` is not a vertex under `env`: unbound, or bound to an edge.
pub open spec fn vertex_error(env: EnvV, name: Seq<char>) -> Option<Seq<char>> {
    if !env.contains_key(name) {
        Some(unbound_text(name))
    } else {
        match env[name] {
            BoundV::Vertex(_) => None,
            BoundV::Edge(_) => Some(
                "\""@ + name + "\" ist eine Kantenvariable, hier wird ein Knoten erwartet"@,
            ),
        }
    }
}

/// Why a term has no value under `env`.
pub open spec fn term_error(t: TermV, env: EnvV) -> Option<Seq<char>> {
    match t {
        TermV::Var(n) => if env.contains_key(n) {
            None
        } else {
            Some(unbound_text(n))
        },
        TermV::Pair(a, b) => if vertex_error(env, a) is Some {
            vertex_error(env, a)
        } else {
            vertex_error(env, b)
        },
    }
}

/// The message with which a set expression is refused. Operands are
/// evaluated from left to right, and the first refusal is reported.
pub open spec fn set_error(e: SetExprV, c: CtxV) -> Option<Seq<char>>
    decreases e, 2int, 0int,
{
    match e {
        SetExprV::Name(n) => if c.named.contains_key(n) {
            None
        } else {
            Some("Unbekannte Menge \""@ + n + "\""@)
        },
        SetExprV::GraphVertices(g) => if c.graphs.contains_key(g) {
            None
        } else {
            Some("Unbekannter Graph \""@ + g + "\""@)
        },
        SetExprV::GraphEdges(g) => if c.graphs.contains_key(g) {
            None
        } else {
            Some("Unbekannter Graph \""@ + g + "\""@)
        },
        SetExprV::Empty => None,
        SetExprV::Union(a, b) => operation_error(
            SetOp::Union,
            set_error(*a, c),
            set_error(*b, c),
            eval_set_spec(*a, c),
            eval_set_spec(*b, c),
        ),
        SetExprV::Intersect(a, b) => operation_error(
            SetOp::Intersect,
            set_error(*a, c),
            set_error(*b, c),
            eval_set_spec(*a, c),
            eval_set_spec(*b, c),
        ),
        SetExprV::Diff(a, b) => operation_error(
            SetOp::Diff,
            set_error(*a, c),
            set_error(*b, c),
            eval_set_spec(*a, c),
            eval_set_spec(*b, c),
        ),
        SetExprV::SymDiff(a, b) => operation_error(
            SetOp::SymDiff,
            set_error(*a, c),
            set_error(*b, c),
            eval_set_spec(*a, c),
            eval_set_spec(*b, c),
        ),
        SetExprV::Comprehension(out, quals) => match comp_quals(
            quals,
            0,
            seq![Map::empty()],
            c,
        ) {
            Ok(envs) => output_error(out, envs, 0),
            Err(_) => comp_error(quals, 0, seq![Map::empty()], c),
        },
    }
}

/// The message with which `a op b` is refused, from the messages and the
/// values of its operands.
pub open spec fn operation_error(
    op: SetOp,
    ea: Option<Seq<char>>,
    eb: Option<Seq<char>>,
    ra: Result<SetVal, ()>,
    rb: Result<SetVal, ()>,
) -> Option<Seq<char>> {
    match ra {
        Err(_) => ea,
        Ok(va) => match rb {
            Err(_) => eb,
            Ok(vb) => if binary_op_spec(op, va, vb) is Err {
                Some(type_mismatch_text(op, va, vb))
            } else {
                None
            },
        },
    }
}

/// The message with which the qualifiers from the `k`-th on are refused,
/// starting from `envs`: a variable bound again, a refused domain, too
/// many combinations, or a guard refused in one of the environments.
pub open spec fn comp_error(quals: Seq<QualV>, k: int, envs: Seq<EnvV>, c: CtxV) -> Option<
    Seq<char>,
>
    decreases quals, 1int, quals.len() - k,
{
    if k < 0 || k >= quals.len() {
        None
    } else {
        match quals[k] {
            QualV::Binder(var, dom) => {
                if exists|i: int| 0 <= i < envs.len() && (#[trigger] envs[i]).contains_key(var) {
                    Some(rebound_text(var))
                } else {
                    match eval_set_spec(dom, c) {
                        Ok(d) => {
                            let next = extend(envs, var, bound_seq(d));
                            if next.len() > MAX_COMPREHENSION_STATES {
                                Some(too_many_text())
                            } else {
                                comp_error(quals, k + 1, next, c)
                            }
                        },
                        Err(_) => set_error(dom, c),
                    }
                }
            },
            QualV::Guard(pred) => match filter_envs(pred, envs, c) {
                Ok(kept) => comp_error(quals, k + 1, kept, c),
                Err(_) => filter_error(pred, envs, 0, c),
            },
        }
    }
}

/// The message with which a guard is refused in the first of the
/// environments from the `i`-th on in which it is refused.
pub open spec fn filter_error(pred: BoolExprV, envs: Seq<EnvV>, i: int, c: CtxV) -> Option<
    Seq<char>,
>
    decreases pred, 3int, envs.len() - i,
{
    if i < 0 || i >= envs.len() {
        None
    } else {
        match eval_bool_spec(pred, c, envs[i]) {
            Ok(_) => filter_error(pred, envs, i + 1, c),
            Err(_) => bool_error(pred, c, envs[i]),
        }
    }
}

/// The message with which the output of a comprehension is refused in the
/// first of the environments from the `i`-th on in which it is refused.
pub open spec fn output_error(out: OutputV, envs: Seq<EnvV>, i: int) -> Option<Seq<char>>
    decreases envs.len() - i,
{
    if i < 0 || i >= envs.len() {
        None
    } else {
        match out {
            OutputV::Var(x) => if envs[i].contains_key(x) {
                output_error(out, envs, i + 1)
            } else {
                Some("Variable \""@ + x + "\" ist im Ausgabeausdruck nicht gebunden"@)
            },
            OutputV::Pair(a, b) => if vertex_error(envs[i], a) is Some {
                vertex_error(envs[i], a)
            } else if vertex_error(envs[i], b) is Some {
                vertex_error(envs[i], b)
            } else {
                output_error(out, envs, i + 1)
            },
        }
    }
}

/// The message with which a condition is refused under `env`. Operands are
/// evaluated from left to right, `and` and `or` stop as soon as the first
/// operand decides them, and the first refusal is reported.
pub open spec fn bool_error(b: BoolExprV, c: CtxV, env: EnvV) -> Option<Seq<char>>
    decreases b, 2int, 0int,
{
    match b {
        BoolExprV::Eq(x, y) => if term_spec(x, env) is Err {
            term_error(x, env)
        } else {
            term_error(y, env)
        },
        BoolExprV::Ne(x, y) => if term_spec(x, env) is Err {
            term_error(x, env)
        } else {
            term_error(y, env)
        },
        BoolExprV::MemberOf(t, s) => member_error(
            term_spec(t, env),
            term_error(t, env),
            eval_set_spec(s, c),
            set_error(s, c),
        ),
        BoolExprV::NotMemberOf(t, s) => member_error(
            term_spec(t, env),
            term_error(t, env),
            eval_set_spec(s, c),
            set_error(s, c),
        ),
        BoolExprV::Subset(x, y) => match eval_set_spec(x, c) {
            Err(_) => set_error(x, c),
            Ok(p) => match eval_set_spec(y, c) {
                Err(_) => set_error(y, c),
                Ok(q) => if subset_spec(p, q) is Err {
                    Some(mismatch_text("<="@, p, q))
                } else {
                    None
                },
            },
        },
        BoolExprV::And(x, y) => match eval_bool_spec(*x, c, env) {
            Err(_) => bool_error(*x, c, env),
            Ok(true) => bool_error(*y, c, env),
            Ok(false) => None,
        },
        BoolExprV::Or(x, y) => match eval_bool_spec(*x, c, env) {
            Err(_) => bool_error(*x, c, env),
            Ok(false) => bool_error(*y, c, env),
            Ok(true) => None,
        },
        BoolExprV::Not(x) => bool_error(*x, c, env),
        BoolExprV::ForAll(var, dom, _) => if env.contains_key(var) {
            Some(rebound_text(var))
        } else {
            match eval_set_spec(dom, c) {
                Ok(d) => quant_error(b, bound_seq(d), 0, c, env),
                Err(_) => set_error(dom, c),
            }
        },
        BoolExprV::Exists(var, dom, _) => if env.contains_key(var) {
            Some(rebound_text(var))
        } else {
            match eval_set_spec(dom, c) {
                Ok(d) => quant_error(b, bound_seq(d), 0, c, env),
                Err(_) => set_error(dom, c),
            }
        },
    }
}

/// The message with which `t in s` is refused, from the values and the
/// messages of `t` and `s`.
pub open spec fn member_error(
    tv: Result<BoundV, ()>,
    te: Option<Seq<char>>,
    sv: Result<SetVal, ()>,
    se: Option<Seq<char>>,
) -> Option<Seq<char>> {
    match tv {
        Err(_) => te,
        Ok(v) => match sv {
            Err(_) => se,
            Ok(set) => if member_spec(v, set) is Err {
                Some(member_mismatch_text())
            } else {
                None
            },
        },
    }
}

/// The message with which a quantifier is refused: that of its body for
/// the first element that neither decides it nor lets it go on.
pub open spec fn quant_error(b: BoolExprV, elems: Seq<BoundV>, i: int, c: CtxV, env: EnvV) -> Option<
    Seq<char>,
>
    decreases b, 1int, elems.len() - i,
{
    match b {
        BoolExprV::ForAll(var, _, body) => if i < 0 || i >= elems.len() {
            None
        } else {
            match eval_bool_spec(*body, c, env.insert(var, elems[i])) {
                Ok(true) => quant_error(b, elems, i + 1, c, env),
                Ok(false) => None,
                Err(_) => bool_error(*body, c, env.insert(var, elems[i])),
            }
        },
        BoolExprV::Exists(var, _, body) => if i < 0 || i >= elems.len() {
            None
        } else {
            match eval_bool_spec(*body, c, env.insert(var, elems[i])) {
                Ok(true) => None,
                Ok(false) => quant_error(b, elems, i + 1, c, env),
                Err(_) => bool_error(*body, c, env.insert(var, elems[i])),
            }
        },
        _ => None,
    }
}

fn op_name(op: &SetOp) -> (s: &'static str)
    ensures
        s@ == op_symbol(*op),
{
    match op {
        SetOp::Union => "∪",
        SetOp::Intersect => "∩",
        SetOp::Diff => "\\",
        SetOp::SymDiff => "^",
    }
}

fn binary_op(a: SetValue, b: SetValue, op: SetOp) -> (r: Result<SetValue, String>)
    ensures
        res_view(r) == binary_op_spec(op, a@, b@),
        r matches Err(e) ==> e@ == type_mismatch_text(op, a@, b@),
{
    let ka = a.kind();
    let kb = b.kind();
    match (a, b) {
        (SetValue::Vertices(x), SetValue::Vertices(y)) => Ok(
            SetValue::Vertices(apply_set_op(&op, &x, &y)),
        ),
        (SetValue::Edges(x), SetValue::Edges(y)) => Ok(SetValue::Edges(apply_set_op(&op, &x, &y))),
        (SetValue::Vertices(x), SetValue::Edges(y)) => {
            if x.is_empty() {
                Ok(SetValue::Edges(apply_set_op(&op, &OrdSet::new(), &y)))
            } else {
                Err(type_mismatch(op_name(&op), ka, kb))
            }
        },
        (SetValue::Edges(x), SetValue::Vertices(y)) => {
            if y.is_empty() {
                Ok(SetValue::Edges(apply_set_op(&op, &x, &OrdSet::new())))
            } else {
                Err(type_mismatch(op_name(&op), ka, kb))
            }
        },
    }
}

fn type_mismatch(op: &str, ka: &str, kb: &str) -> (s: String)
    ensures
        s@ == "Typfehler bei '"@ + op@ + "': "@ + ka@ + " und "@ + kb@ + " passen nicht zusammen"@,
{
    let mut s = String::from_str("Typfehler bei '");
    s.append(op);
    s.append("': ");
    s.append(ka);
    s.append(" und ");
    s.append(kb);
    s.append(" passen nicht zusammen");
    s
}

pub fn eval_set(expr: &SetExpr, ctx: &EvalCtx) -> (r: Result<SetValue, String>)
    ensures
        res_view(r) == eval_set_spec(expr@, ctx@),
        r matches Err(e) ==> set_error(expr@, ctx@) == Some(e@),
    decreases expr,
{
    match expr {
        SetExpr::Name(n) => match ctx.named.get(n.as_str()) {
            Some(v) => Ok(v.duplicate()),
            None => Err(text3("Unbekannte Menge \"", n.as_str(), "\"")),
        },
        SetExpr::GraphVertices(g) => match ctx.graphs.get(g.as_str()) {
            Some(gr) => Ok(SetValue::Vertices(gr.vertices.duplicate())),
            None => Err(text3("Unbekannter Graph \"", g.as_str(), "\"")),
        },
        SetExpr::GraphEdges(g) => match ctx.graphs.get(g.as_str()) {
            Some(gr) => Ok(SetValue::Edges(gr.edges.duplicate())),
            None => Err(text3("Unbekannter Graph \"", g.as_str(), "\"")),
        },
        SetExpr::Empty => Ok(SetValue::Vertices(OrdSet::new())),
        SetExpr::Union(a, b) => {
            let x = match eval_set(a, ctx) {
                Ok(x) => x,
                Err(e) => return Err(e),
            };
            let y = match eval_set(b, ctx) {
                Ok(y) => y,
                Err(e) => return Err(e),
            };
            binary_op(x, y, SetOp::Union)
        },
        SetExpr::Intersect(a, b) => {
            let x = match eval_set(a, ctx) {
                Ok(x) => x,
                Err(e) => return Err(e),
            };
            let y = match eval_set(b, ctx) {
                Ok(y) => y,
                Err(e) => return Err(e),
            };
            binary_op(x, y, SetOp::Intersect)
        },
        SetExpr::Diff(a, b) => {
            let x = match eval_set(a, ctx) {
                Ok(x) => x,
                Err(e) => return Err(e),
            };
            let y = match eval_set(b, ctx) {
                Ok(y) => y,
                Err(e) => return Err(e),
            };
            binary_op(x, y, SetOp::Diff)
        },
        SetExpr::SymDiff(a, b) => {
            let x = match eval_set(a, ctx) {
                Ok(x) => x,
                Err(e) => return Err(e),
            };
            let y = match eval_set(b, ctx) {
                Ok(y) => y,
                Err(e) => return Err(e),
            };
            binary_op(x, y, SetOp::SymDiff)
        },
        SetExpr::Comprehension { output, quals } => {
            proof {
                lemma_comprehension_view(*output, *quals);
            }
            eval_comprehension(output, quals, ctx)
        },
    }
}


pub open spec fn envs_view(envs: Seq<Env>) -> Seq<EnvV> {
    envs.map_values(|e: Env| e@)
}

fn bound_eq(a: &Bound, b: &Bound) -> (r: bool)
    ensures
        r == (a@ == b@),
{
    match (a, b) {
        (Bound::Vertex(x), Bound::Vertex(y)) => str_eq(x.as_str(), y.as_str()),
        (Bound::Edge(x), Bound::Edge(y)) => str_eq(x.0.as_str(), y.0.as_str()) && str_eq(
            x.1.as_str(),
            y.1.as_str(),
        ),
        _ => false,
    }
}

/// The elements of a set in increasing order, as bindable values.
fn bound_iter(s: &SetValue) -> (v: Vec<Bound>)
    ensures
        v@.map_values(|b: Bound| b@) == bound_seq(s@),
{
    let mut v: Vec<Bound> = Vec::new();
    match s {
        SetValue::Vertices(vs) => {
            let n = vs.len();
            let mut i: usize = 0;
            while i < n
                invariant
                    n == vs@.len(),
                    ordered::<VertexId>(vs@).len() == n,
                    i <= n,
                    v@.map_values(|b: Bound| b@) == ordered::<VertexId>(vs@).take(i as int).map_values(
                        |x: Label| BoundV::Vertex(x),
                    ),
                decreases n - i,
            {
                let x = vs.get(i).clone();
                let ghost before = v@;
                v.push(Bound::Vertex(x));
                proof {
                    let o = ordered::<VertexId>(vs@);
                    assert(v@.map_values(|b: Bound| b@) =~= before.map_values(|b: Bound| b@).push(
                        BoundV::Vertex(o[i as int]),
                    ));
                    assert(o.take(i + 1).map_values(|x: Label| BoundV::Vertex(x)) =~= o.take(
                        i as int,
                    ).map_values(|x: Label| BoundV::Vertex(x)).push(BoundV::Vertex(o[i as int])));
                    assert(v@.map_values(|b: Bound| b@) =~= o.take(i + 1).map_values(
                        |x: Label| BoundV::Vertex(x),
                    ));
                }
                i = i + 1;
            }
            proof {
                let o = ordered::<VertexId>(vs@);
                assert(o.take(n as int) =~= o);
            }
        },
        SetValue::Edges(es) => {
            let n = es.len();
            let mut i: usize = 0;
            while i < n
                invariant
                    n == es@.len(),
                    ordered::<Edge>(es@).len() == n,
                    i <= n,
                    v@.map_values(|b: Bound| b@) == ordered::<Edge>(es@).take(i as int).map_values(
                        |x: EdgeView| BoundV::Edge(x),
                    ),
                decreases n - i,
            {
                let x = es.get(i).duplicate();
                let ghost before = v@;
                v.push(Bound::Edge(x));
                proof {
                    let o = ordered::<Edge>(es@);
                    assert(v@.map_values(|b: Bound| b@) =~= before.map_values(|b: Bound| b@).push(
                        BoundV::Edge(o[i as int]),
                    ));
                    assert(o.take(i + 1).map_values(|x: EdgeView| BoundV::Edge(x)) =~= o.take(
                        i as int,
                    ).map_values(|x: EdgeView| BoundV::Edge(x)).push(BoundV::Edge(o[i as int])));
                    assert(v@.map_values(|b: Bound| b@) =~= o.take(i + 1).map_values(
                        |x: EdgeView| BoundV::Edge(x),
                    ));
                }
                i = i + 1;
            }
            proof {
                let o = ordered::<Edge>(es@);
                assert(o.take(n as int) =~= o);
            }
        },
    }
    v
}

fn require_vertex(env: &Env, name: &str) -> (r: Result<VertexId, String>)
    ensures
        res_view(r) == require_vertex_spec(env@, name@),
        r matches Err(e) ==> vertex_error(env@, name@) == Some(e@),
{
    match env.get(name) {
        Some(Bound::Vertex(v)) => Ok(v.clone()),
        Some(Bound::Edge(_)) => Err(
            text3("\"", name, "\" ist eine Kantenvariable, hier wird ein Knoten erwartet"),
        ),
        None => Err(text3("Variable \"", name, "\" ist nicht gebunden")),
    }
}

fn term_value(term: &Term, env: &Env) -> (r: Result<Bound, String>)
    ensures
        res_view(r) == term_spec(term@, env@),
        r matches Err(e) ==> term_error(term@, env@) == Some(e@),
{
    match term {
        Term::Var(n) => match env.get(n.as_str()) {
            Some(b) => Ok(b.dup()),
            None => Err(text3("Variable \"", n.as_str(), "\" ist nicht gebunden")),
        },
        Term::Pair(a, b) => {
            let av = match require_vertex(env, a.as_str()) {
                Ok(v) => v,
                Err(e) => return Err(e),
            };
            let bv = match require_vertex(env, b.as_str()) {
                Ok(v) => v,
                Err(e) => return Err(e),
            };
            Ok(Bound::Edge((av, bv)))
        },
    }
}

fn member(v: &Bound, s: &SetValue) -> (r: Result<bool, String>)
    ensures
        res_view(r) == member_spec(v@, s@),
        r matches Err(e) ==> e@ == member_mismatch_text(),
{
    match (v, s) {
        (Bound::Vertex(x), SetValue::Vertices(set)) => Ok(set.contains(x)),
        (Bound::Edge(x), SetValue::Edges(set)) => Ok(set.contains(x)),
        _ => Err(
            String::from_str(
                "Typfehler: Knoten können nicht in einer Kantenmenge enthalten sein (und umgekehrt)",
            ),
        ),
    }
}

fn subset(a: &SetValue, b: &SetValue) -> (r: Result<bool, String>)
    ensures
        res_view(r) == subset_spec(a@, b@),
        r matches Err(e) ==> e@ == mismatch_text("<="@, a@, b@),
{
    match (a, b) {
        (SetValue::Vertices(x), SetValue::Vertices(y)) => Ok(x.is_subset(y)),
        (SetValue::Edges(x), SetValue::Edges(y)) => Ok(x.is_subset(y)),
        (SetValue::Vertices(x), SetValue::Edges(_)) => {
            if x.is_empty() {
                Ok(true)
            } else {
                Err(type_mismatch("<=", a.kind(), b.kind()))
            }
        },
        (SetValue::Edges(x), SetValue::Vertices(_)) => {
            if x.is_empty() {
                Ok(true)
            } else {
                Err(type_mismatch("<=", a.kind(), b.kind()))
            }
        },
    }
}

pub fn eval_bool(pred: &BoolExpr, ctx: &EvalCtx, env: &Env) -> (r: Result<bool, String>)
    ensures
        res_view(r) == eval_bool_spec(pred@, ctx@, env@),
        r matches Err(e) ==> bool_error(pred@, ctx@, env@) == Some(e@),
    decreases pred,
{
    match pred {
        BoolExpr::Eq(a, b) => {
            let x = match term_value(a, env) {
                Ok(v) => v,
                Err(e) => return Err(e),
            };
            let y = match term_value(b, env) {
                Ok(v) => v,
                Err(e) => return Err(e),
            };
            Ok(bound_eq(&x, &y))
        },
        BoolExpr::Ne(a, b) => {
            let x = match term_value(a, env) {
                Ok(v) => v,
                Err(e) => return Err(e),
            };
            let y = match term_value(b, env) {
                Ok(v) => v,
                Err(e) => return Err(e),
            };
            Ok(!bound_eq(&x, &y))
        },
        BoolExpr::MemberOf(t, se) => {
            let v = match term_value(t, env) {
                Ok(v) => v,
                Err(e) => return Err(e),
            };
            let s = match eval_set(se, ctx) {
                Ok(v) => v,
                Err(e) => return Err(e),
            };
            member(&v, &s)
        },
        BoolExpr::NotMemberOf(t, se) => {
            let v = match term_value(t, env) {
                Ok(v) => v,
                Err(e) => return Err(e),
            };
            let s = match eval_set(se, ctx) {
                Ok(v) => v,
                Err(e) => return Err(e),
            };
            let m = match member(&v, &s) {
                Ok(v) => v,
                Err(e) => return Err(e),
            };
            Ok(!m)
        },
        BoolExpr::Subset(a, b) => {
            let sa = match eval_set(a, ctx) {
                Ok(v) => v,
                Err(e) => return Err(e),
            };
            let sb = match eval_set(b, ctx) {
                Ok(v) => v,
                Err(e) => return Err(e),
            };
            subset(&sa, &sb)
        },
        BoolExpr::And(a, b) => {
            let first = match eval_bool(a, ctx, env) {
                Ok(v) => v,
                Err(e) => return Err(e),
            };
            if first {
                eval_bool(b, ctx, env)
            } else {
                Ok(false)
            }
        },
        BoolExpr::Or(a, b) => {
            let first = match eval_bool(a, ctx, env) {
                Ok(v) => v,
                Err(e) => return Err(e),
            };
            if first {
                Ok(true)
            } else {
                eval_bool(b, ctx, env)
            }
        },
        BoolExpr::Not(a) => {
            let v = match eval_bool(a, ctx, env) {
                Ok(v) => v,
                Err(e) => return Err(e),
            };
            Ok(!v)
        },
        BoolExpr::ForAll(var, dom, body) => {
            if env.contains_key(var.as_str()) {
                return Err(text3("Variable \"", var.as_str(), "\" ist bereits gebunden"));
            }
            let d = match eval_set(dom, ctx) {
                Ok(v) => v,
                Err(e) => return Err(e),
            };
            let elems = bound_iter(&d);
            let ghost bs = bound_seq(d@);
            let n = elems.len();
            let mut i: usize = 0;
            while i < n
                invariant
                    n == elems@.len(),
                    i <= n,
                    elems@.map_values(|b: Bound| b@) == bs,
                    pred@ == BoolExprV::ForAll(var@, dom@, Box::new(body@)),
                    decreases_to!(pred => body),
                    eval_bool_spec(pred@, ctx@, env@) == quant_spec(pred@, bs, i as int, ctx@, env@),
                    bool_error(pred@, ctx@, env@) == quant_error(pred@, bs, i as int, ctx@, env@),
                decreases n - i,
            {
                let mut e2 = env.duplicate();
                e2.insert(var.clone(), elems[i].dup());
                proof {
                    assert(elems@[i as int]@ == bs[i as int]);
                }
                let holds = match eval_bool(body, ctx, &e2) {
                    Ok(v) => v,
                    Err(e) => return Err(e),
                };
                if !holds {
                    return Ok(false);
                }
                i = i + 1;
            }
            Ok(true)
        },
        BoolExpr::Exists(var, dom, body) => {
            if env.contains_key(var.as_str()) {
                return Err(text3("Variable \"", var.as_str(), "\" ist bereits gebunden"));
            }
            let d = match eval_set(dom, ctx) {
                Ok(v) => v,
                Err(e) => return Err(e),
            };
            let elems = bound_iter(&d);
            let ghost bs = bound_seq(d@);
            let n = elems.len();
            let mut i: usize = 0;
            while i < n
                invariant
                    n == elems@.len(),
                    i <= n,
                    elems@.map_values(|b: Bound| b@) == bs,
                    pred@ == BoolExprV::Exists(var@, dom@, Box::new(body@)),
                    decreases_to!(pred => body),
                    eval_bool_spec(pred@, ctx@, env@) == quant_spec(pred@, bs, i as int, ctx@, env@),
                    bool_error(pred@, ctx@, env@) == quant_error(pred@, bs, i as int, ctx@, env@),
                decreases n - i,
            {
                let mut e2 = env.duplicate();
                e2.insert(var.clone(), elems[i].dup());
                proof {
                    assert(elems@[i as int]@ == bs[i as int]);
                }
                let holds = match eval_bool(body, ctx, &e2) {
                    Ok(v) => v,
                    Err(e) => return Err(e),
                };
                if holds {
                    return Ok(true);
                }
                i = i + 1;
            }
            Ok(false)
        },
    }
}


proof fn lemma_filter_err_extends(pred: BoolExprV, envs: Seq<EnvV>, i: int, c: CtxV)
    requires
        0 <= i <= envs.len(),
        filter_envs(pred, envs.take(i), c) is Err,
    ensures
        filter_envs(pred, envs, c) is Err,
    decreases envs.len() - i,
{
    if i == envs.len() {
        assert(envs.take(i) =~= envs);
    } else {
        assert(envs.take(i + 1).drop_last() =~= envs.take(i));
        lemma_filter_err_extends(pred, envs, i + 1, c);
    }
}

fn any_binds(envs: &Vec<Env>, var: &str) -> (b: bool)
    ensures
        b == exists|i: int|
            0 <= i < envs_view(envs@).len() && (#[trigger] envs_view(envs@)[i]).contains_key(var@),
{
    let n = envs.len();
    let mut i: usize = 0;
    while i < n
        invariant
            n == envs@.len(),
            i <= n,
            forall|j: int| 0 <= j < i ==> !(#[trigger] envs_view(envs@)[j]).contains_key(var@),
        decreases n - i,
    {
        if envs[i].contains_key(var) {
            proof {
                assert(envs_view(envs@)[i as int] == envs@[i as int]@);
            }
            return true;
        }
        i = i + 1;
    }
    false
}

fn extend_envs(envs: &Vec<Env>, var: &String, elems: &Vec<Bound>) -> (next: Vec<Env>)
    ensures
        envs_view(next@) == extend(envs_view(envs@), var@, elems@.map_values(|b: Bound| b@)),
{
    let ghost ev = envs_view(envs@);
    let ghost es = elems@.map_values(|b: Bound| b@);
    let mut next: Vec<Env> = Vec::new();
    let n = envs.len();
    let m = elems.len();
    let mut i: usize = 0;
    while i < n
        invariant
            n == envs@.len(),
            m == elems@.len(),
            ev == envs_view(envs@),
            es == elems@.map_values(|b: Bound| b@),
            i <= n,
            envs_view(next@) == extend(ev.take(i as int), var@, es),
        decreases n - i,
    {
        let mut j: usize = 0;
        while j < m
            invariant
                n == envs@.len(),
                m == elems@.len(),
                ev == envs_view(envs@),
                es == elems@.map_values(|b: Bound| b@),
                i < n,
                j <= m,
                envs_view(next@) == extend(ev.take(i as int), var@, es) + es.take(j as int).map_values(
                    |b: BoundV| ev[i as int].insert(var@, b),
                ),
            decreases m - j,
        {
            let mut e2 = envs[i].duplicate();
            e2.insert(var.clone(), elems[j].dup());
            let ghost before = next@;
            let ghost e2v = e2@;
            next.push(e2);
            proof {
                assert(e2v == ev[i as int].insert(var@, es[j as int]));
                assert(envs_view(next@) =~= envs_view(before).push(e2v));
                assert(es.take(j + 1) =~= es.take(j as int).push(es[j as int]));
                assert(es.take(j + 1).map_values(|b: BoundV| ev[i as int].insert(var@, b)) =~= es.take(
                    j as int,
                ).map_values(|b: BoundV| ev[i as int].insert(var@, b)).push(e2v));
                assert(envs_view(next@) =~= extend(ev.take(i as int), var@, es) + es.take(
                    j + 1,
                ).map_values(|b: BoundV| ev[i as int].insert(var@, b)));
            }
            j = j + 1;
        }
        proof {
            assert(es.take(m as int) =~= es);
            assert(ev.take(i + 1).drop_last() =~= ev.take(i as int));
            assert(ev.take(i + 1).last() == ev[i as int]);
        }
        i = i + 1;
    }
    proof {
        assert(ev.take(n as int) =~= ev);
    }
    next
}

fn comp_output(output: &Output, envs: &Vec<Env>, edges_out: bool) -> (r: Result<SetValue, String>)
    ensures
        res_view(r) == output_spec(output@, envs_view(envs@), edges_out),
        r matches Err(e) ==> output_error(output@, envs_view(envs@), 0) == Some(e@),
{
    let ghost ev = envs_view(envs@);
    let n = envs.len();
    match output {
        Output::Var(name) => {
            let mut verts: OrdSet<VertexId> = OrdSet::new();
            let mut edges: OrdSet<Edge> = OrdSet::new();
            let mut i: usize = 0;
            while i < n
                invariant
                    n == envs@.len(),
                    ev == envs_view(envs@),
                    i <= n,
                    output@ == OutputV::Var(name@),
                    output_error(output@, ev, 0) == output_error(output@, ev, i as int),
                    forall|j: int| 0 <= j < i ==> (#[trigger] ev[j]).contains_key(name@),
                    verts@ == Set::new(
                        |x: Label| exists|j: int| 0 <= j < i && (#[trigger] ev[j])[name@] == BoundV::Vertex(x),
                    ),
                    edges@ == Set::new(
                        |x: EdgeView| exists|j: int| 0 <= j < i && (#[trigger] ev[j])[name@] == BoundV::Edge(x),
                    ),
                decreases n - i,
            {
                proof {
                    assert(ev[i as int] == envs@[i as int]@);
                }
                match envs[i].get(name.as_str()) {
                    Some(Bound::Vertex(v)) => {
                        verts.insert(v.clone());
                    },
                    Some(Bound::Edge(e)) => {
                        edges.insert(e.duplicate());
                    },
                    None => {
                        proof {
                            assert(!ev[i as int].contains_key(name@));
                            assert(output@ == OutputV::Var(name@));
                            assert(output_spec(output@, ev, edges_out) is Err);
                        }
                        return Err(
                            text3(
                                "Variable \"",
                                name.as_str(),
                                "\" ist im Ausgabeausdruck nicht gebunden",
                            ),
                        );
                    },
                }
                proof {
                    assert(verts@ =~= Set::new(
                        |x: Label|
                            exists|j: int| 0 <= j < i + 1 && (#[trigger] ev[j])[name@] == BoundV::Vertex(x),
                    ));
                    assert(edges@ =~= Set::new(
                        |x: EdgeView|
                            exists|j: int| 0 <= j < i + 1 && (#[trigger] ev[j])[name@] == BoundV::Edge(x),
                    ));
                }
                i = i + 1;
            }
            if edges_out {
                Ok(SetValue::Edges(edges))
            } else {
                Ok(SetValue::Vertices(verts))
            }
        },
        Output::Pair(a, b) => {
            let mut edges: OrdSet<Edge> = OrdSet::new();
            let mut i: usize = 0;
            while i < n
                invariant
                    n == envs@.len(),
                    ev == envs_view(envs@),
                    i <= n,
                    output@ == OutputV::Pair(a@, b@),
                    output_error(output@, ev, 0) == output_error(output@, ev, i as int),
                    forall|j: int|
                        0 <= j < i ==> require_vertex_spec(#[trigger] ev[j], a@) is Ok
                            && require_vertex_spec(ev[j], b@) is Ok,
                    edges@ == Set::new(
                        |x: EdgeView|
                            exists|j: int|
                                0 <= j < i && x == (
                                    require_vertex_spec(#[trigger] ev[j], a@)->Ok_0,
                                    require_vertex_spec(ev[j], b@)->Ok_0,
                                ),
                    ),
                decreases n - i,
            {
                proof {
                    assert(ev[i as int] == envs@[i as int]@);
                }
                let av = match require_vertex(&envs[i], a.as_str()) {
                    Ok(v) => v,
                    Err(e) => {
                        proof {
                            assert(require_vertex_spec(ev[i as int], a@) is Err);
                            assert(output@ == OutputV::Pair(a@, b@));
                            assert(output_spec(output@, ev, edges_out) is Err);
                        }
                        return Err(e);
                    },
                };
                let bv = match require_vertex(&envs[i], b.as_str()) {
                    Ok(v) => v,
                    Err(e) => {
                        proof {
                            assert(require_vertex_spec(ev[i as int], b@) is Err);
                            assert(output@ == OutputV::Pair(a@, b@));
                            assert(output_spec(output@, ev, edges_out) is Err);
                        }
                        return Err(e);
                    },
                };
                edges.insert((av, bv));
                proof {
                    assert(edges@ =~= Set::new(
                        |x: EdgeView|
                            exists|j: int|
                                0 <= j < i + 1 && x == (
                                    require_vertex_spec(#[trigger] ev[j], a@)->Ok_0,
                                    require_vertex_spec(ev[j], b@)->Ok_0,
                                ),
                    ));
                }
                i = i + 1;
            }
            Ok(SetValue::Edges(edges))
        },
    }
}

fn eval_comprehension(output: &Output, quals: &Vec<Qual>, ctx: &EvalCtx) -> (r: Result<
    SetValue,
    String,
>)
    ensures
        res_view(r) == match comp_quals(quals_view(quals@), 0, seq![Map::empty()], ctx@) {
            Ok(envs) => output_spec(
                output@,
                envs,
                output_ranges_over_edges(output@, quals_view(quals@), ctx@),
            ),
            Err(_) => Err(()),
        },
        r matches Err(e) ==> match comp_quals(quals_view(quals@), 0, seq![Map::empty()], ctx@) {
            Ok(envs) => output_error(output@, envs, 0),
            Err(_) => comp_error(quals_view(quals@), 0, seq![Map::empty()], ctx@),
        } == Some(e@),
    decreases quals,
{
    let ghost qv = quals_view(quals@);
    let ghost c = ctx@;
    let mut envs: Vec<Env> = Vec::new();
    envs.push(NameMap::new());
    proof {
        assert(envs_view(envs@) =~= seq![Map::<Seq<char>, BoundV>::empty()]);
    }
    let n = quals.len();
    let out_var: Option<&String> = match output {
        Output::Var(x) => Some(x),
        Output::Pair(_, _) => None,
    };
    let ghost xv = match output@ {
        OutputV::Var(x) => x,
        OutputV::Pair(_, _) => Seq::<char>::empty(),
    };
    let mut edges_out = false;
    let mut k: usize = 0;
    while k < n
        invariant
            n == quals@.len(),
            qv == quals_view(quals@),
            c == ctx@,
            k <= n,
            comp_quals(qv, 0, seq![Map::empty()], c) == comp_quals(qv, k as int, envs_view(envs@), c),
            comp_error(qv, 0, seq![Map::empty()], c) == comp_error(qv, k as int, envs_view(envs@), c),
            out_var matches Some(x) ==> x@ == xv,
            out_var is Some <==> output@ is Var,
            output@ matches OutputV::Var(x) ==> x == xv,
            output@ is Var ==> edge_binder(qv, 0, xv, c) == (edges_out || edge_binder(
                qv,
                k as int,
                xv,
                c,
            )),
        decreases n - k,
    {
        let ghost ev = envs_view(envs@);
        proof {
            assert(qv[k as int] == quals@[k as int]@);
            assert(decreases_to!(quals => quals@));
            assert(decreases_to!(quals@ => quals@[k as int]));
        }
        match &quals[k] {
            Qual::Binder(var, domain) => {
                if any_binds(&envs, var.as_str()) {
                    return Err(text3("Variable \"", var.as_str(), "\" ist bereits gebunden"));
                }
                let dom = match eval_set(domain, ctx) {
                    Ok(d) => d,
                    Err(e) => return Err(e),
                };
                proof {
                    assert(qv[k as int] == QualV::Binder(var@, domain@));
                    assert(edge_binder(qv, k as int, xv, c) == ((var@ == xv && eval_set_spec(
                        domain@,
                        c,
                    ) matches Ok(SetVal::Edges(_))) || edge_binder(qv, k + 1, xv, c)));
                }
                match (out_var, &dom) {
                    (Some(x), SetValue::Edges(_)) => {
                        if str_eq(x.as_str(), var.as_str()) {
                            edges_out = true;
                        }
                    },
                    _ => {},
                }
                let elems = bound_iter(&dom);
                let next = extend_envs(&envs, var, &elems);
                if next.len() > MAX_COMPREHENSION_STATES {
                    return Err(
                        String::from_str(
                            "Ausdruck zu groß (zu viele Kombinationen) — bitte einschränken",
                        ),
                    );
                }
                envs = next;
            },
            Qual::Guard(pred) => {
                let mut kept: Vec<Env> = Vec::new();
                let m = envs.len();
                proof {
                    assert(ev.take(0) =~= Seq::<EnvV>::empty());
                    assert(envs_view(kept@) =~= Seq::<EnvV>::empty());
                }
                let mut i: usize = 0;
                while i < m
                    invariant
                        m == envs@.len(),
                        ev == envs_view(envs@),
                        c == ctx@,
                        i <= m,
                        filter_envs(pred@, ev.take(i as int), c) == Ok::<Seq<EnvV>, ()>(
                            envs_view(kept@),
                        ),
                        decreases_to!(quals => pred),
                        qv[k as int] == QualV::Guard(pred@),
                        qv == quals_view(quals@),
                        k < n,
                        n == quals@.len(),
                        comp_quals(qv, 0, seq![Map::empty()], c) == comp_quals(qv, k as int, ev, c),
                        comp_error(qv, 0, seq![Map::empty()], c) == comp_error(qv, k as int, ev, c),
                        filter_error(pred@, ev, 0, c) == filter_error(pred@, ev, i as int, c),
                    decreases m - i,
                {
                    proof {
                        assert(ev.take(i + 1).drop_last() =~= ev.take(i as int));
                        assert(ev.take(i + 1).last() == envs@[i as int]@);
                    }
                    match eval_bool(pred, ctx, &envs[i]) {
                        Ok(b) => {
                            if b {
                                let ghost before = kept@;
                                kept.push(envs[i].duplicate());
                                proof {
                                    assert(envs_view(kept@) =~= envs_view(before).push(
                                        ev[i as int],
                                    ));
                                }
                            }
                        },
                        Err(e) => {
                            proof {
                                assert(filter_envs(pred@, ev.take(i + 1), c) is Err);
                                lemma_filter_err_extends(pred@, ev, i + 1, c);
                                assert(comp_quals(qv, k as int, ev, c) is Err);
                            }
                            return Err(e);
                        },
                    }
                    i = i + 1;
                }
                proof {
                    assert(ev.take(m as int) =~= ev);
                    assert(edge_binder(qv, k as int, xv, c) == edge_binder(qv, k + 1, xv, c));
                }
                envs = kept;
            },
        }
        k = k + 1;
    }
    let edges_out = match output {
        Output::Var(_) => edges_out,
        Output::Pair(_, _) => true,
    };
    comp_output(output, &envs, edges_out)
}


/// What a statement defines: a named set, or a new graph `(V, E)`.
#[derive(Debug)]
pub enum StmtResult {
    NamedSet(String, SetValue),
    Graph(String, OrdSet<VertexId>, OrdSet<Edge>),
}

pub enum StmtResultV {
    NamedSet(Seq<char>, SetVal),
    Graph(Seq<char>, Set<Label>, Set<EdgeView>),
}

impl View for StmtResult {
    type V = StmtResultV;

    open spec fn view(&self) -> StmtResultV {
        match self {
            StmtResult::NamedSet(n, v) => StmtResultV::NamedSet(n@, v@),
            StmtResult::Graph(n, vs, es) => StmtResultV::Graph(n@, vs@, es@),
        }
    }
}

/// The vertex part of a graph definition: a vertex set, or an empty set of
/// either kind.
pub open spec fn vertex_part(v: SetVal) -> Result<Set<Label>, ()> {
    match v {
        SetVal::Vertices(s) => Ok(s),
        SetVal::Edges(s) => if s.len() == 0 {
            Ok(Set::empty())
        } else {
            Err(())
        },
    }
}

/// The edge part of a graph definition: an edge set, or an empty set of
/// either kind.
pub open spec fn edge_part(v: SetVal) -> Result<Set<EdgeView>, ()> {
    match v {
        SetVal::Edges(s) => Ok(s),
        SetVal::Vertices(s) => if s.len() == 0 {
            Ok(Set::empty())
        } else {
            Err(())
        },
    }
}

/// Why a graph definition whose two parts evaluate is refused: a first
/// part that holds edges, or else a second part that holds vertices.
pub open spec fn graph_definition_error(st: StmtV, c: CtxV) -> Option<Seq<char>> {
    match st {
        StmtV::DefineGraph(_, ve, ee) => match (eval_set_spec(ve, c), eval_set_spec(ee, c)) {
            (Ok(v), Ok(e)) => if vertex_part(v) is Err {
                Some("Der erste Teil von (V, E) muss eine Knotenmenge sein, keine Kantenmenge"@)
            } else if edge_part(e) is Err {
                Some("Der zweite Teil von (V, E) muss eine Kantenmenge sein, keine Knotenmenge"@)
            } else {
                None
            },
            _ => None,
        },
        StmtV::DefineSet(_, _) => None,
    }
}

/// The message with which a statement is refused: that of its set
/// expression, or of the vertex part of a graph definition, then of its
/// edge part, then `graph_definition_error`.
pub open spec fn statement_error_text(st: StmtV, c: CtxV) -> Option<Seq<char>> {
    match st {
        StmtV::DefineSet(_, e) => set_error(e, c),
        StmtV::DefineGraph(_, ve, ee) => match eval_set_spec(ve, c) {
            Err(_) => set_error(ve, c),
            Ok(_) => match eval_set_spec(ee, c) {
                Err(_) => set_error(ee, c),
                Ok(_) => graph_definition_error(st, c),
            },
        },
    }
}

pub open spec fn eval_statement_spec(st: StmtV, c: CtxV) -> Result<StmtResultV, ()> {
    match st {
        StmtV::DefineSet(name, e) => match eval_set_spec(e, c) {
            Ok(v) => Ok(StmtResultV::NamedSet(name, v)),
            Err(_) => Err(()),
        },
        StmtV::DefineGraph(name, ve, ee) => match (eval_set_spec(ve, c), eval_set_spec(ee, c)) {
            (Ok(v), Ok(e)) => match (vertex_part(v), edge_part(e)) {
                (Ok(vs), Ok(es)) => Ok(StmtResultV::Graph(name, vs, es)),
                _ => Err(()),
            },
            _ => Err(()),
        },
    }
}

pub fn eval_statement(stmt: &Stmt, ctx: &EvalCtx) -> (r: Result<StmtResult, String>)
    ensures
        res_view(r) == eval_statement_spec(stmt@, ctx@),
        r matches Err(e) ==> statement_error_text(stmt@, ctx@) == Some(e@),
{
    match stmt {
        Stmt::DefineSet(name, expr) => {
            let v = match eval_set(expr, ctx) {
                Ok(v) => v,
                Err(e) => return Err(e),
            };
            Ok(StmtResult::NamedSet(name.clone(), v))
        },
        Stmt::DefineGraph(name, vexpr, eexpr) => {
            let v = match eval_set(vexpr, ctx) {
                Ok(v) => v,
                Err(e) => return Err(e),
            };
            let e = match eval_set(eexpr, ctx) {
                Ok(e) => e,
                Err(e) => return Err(e),
            };
            let verts = match v {
                SetValue::Vertices(s) => s,
                SetValue::Edges(s) => {
                    if s.is_empty() {
                        OrdSet::new()
                    } else {
                        return Err(
                            String::from_str(
                                "Der erste Teil von (V, E) muss eine Knotenmenge sein, keine Kantenmenge",
                            ),
                        );
                    }
                },
            };
            let edges = match e {
                SetValue::Edges(s) => s,
                SetValue::Vertices(s) => {
                    if s.is_empty() {
                        OrdSet::new()
                    } else {
                        return Err(
                            String::from_str(
                                "Der zweite Teil von (V, E) muss eine Kantenmenge sein, keine Knotenmenge",
                            ),
                        );
                    }
                },
            };
            Ok(StmtResult::Graph(name.clone(), verts, edges))
        },
    }
}

} // verus!
