//! Laws of the set-expression language, stated over the evaluator's spec
//! functions.
use vstd::prelude::*;
use crate::expr::eval::{
    bound_seq, comp_quals, edge_binder, eval_bool_spec, eval_set_spec, extend, filter_envs, lift2,
    output_spec,
    BoundV, CtxV, EnvV, SetOp, MAX_COMPREHENSION_STATES,
};
use crate::expr::syntax::{BoolExprV, OutputV, QualV, SetExprV, StmtV, TokV};
use crate::expr::parser::{
    sp_diffsym, sp_diffsym_tail, sp_intersect, sp_intersect_tail, sp_primary, sp_set_expr,
    sp_statement, sp_union, sp_union_tail,
};
use crate::expr::lexer::{char_at_is, lex_from, prepend};
use crate::expr::value::SetVal;
use crate::graph::{Edge, EdgeView, Label, VertexId};
use crate::ordset::{lemma_ordered_exists, ordered};

verus! {

/// `x <= y` between two edge sets holds exactly when every edge of the
/// first is an edge of the second, whatever the bindings.
pub proof fn law_subset_test_on_edge_sets(
    x: SetExprV,
    y: SetExprV,
    c: CtxV,
    env: EnvV,
    xs: Set<EdgeView>,
    ys: Set<EdgeView>,
)
    requires
        eval_set_spec(x, c) == Ok::<SetVal, ()>(SetVal::Edges(xs)),
        eval_set_spec(y, c) == Ok::<SetVal, ()>(SetVal::Edges(ys)),
    ensures
        eval_bool_spec(BoolExprV::Subset(x, y), c, env) == Ok::<bool, ()>(
            forall|e: EdgeView| xs.contains(e) ==> ys.contains(e),
        ),
        eval_bool_spec(
            BoolExprV::Subset(x, SetExprV::Union(Box::new(x), Box::new(y))),
            c,
            env,
        ) == Ok::<bool, ()>(true),
        eval_bool_spec(
            BoolExprV::Subset(SetExprV::Intersect(Box::new(x), Box::new(y)), x),
            c,
            env,
        ) == Ok::<bool, ()>(true),
{
    let u = SetExprV::Union(Box::new(x), Box::new(y));
    let n = SetExprV::Intersect(Box::new(x), Box::new(y));
    assert(eval_set_spec(u, c) == Ok::<SetVal, ()>(SetVal::Edges(xs.union(ys))));
    assert(eval_set_spec(n, c) == Ok::<SetVal, ()>(SetVal::Edges(xs.intersect(ys))));
    assert(xs.subset_of(xs.union(ys)));
    assert(xs.intersect(ys).subset_of(xs));
}

/// `x <= y` between two vertex sets holds exactly when every vertex of the
/// first is a vertex of the second, whatever the bindings.
pub proof fn law_subset_test_on_vertex_sets(
    x: SetExprV,
    y: SetExprV,
    c: CtxV,
    env: EnvV,
    xs: Set<Label>,
    ys: Set<Label>,
)
    requires
        eval_set_spec(x, c) == Ok::<SetVal, ()>(SetVal::Vertices(xs)),
        eval_set_spec(y, c) == Ok::<SetVal, ()>(SetVal::Vertices(ys)),
    ensures
        eval_bool_spec(BoolExprV::Subset(x, y), c, env) == Ok::<bool, ()>(
            forall|v: Label| xs.contains(v) ==> ys.contains(v),
        ),
        eval_bool_spec(
            BoolExprV::Subset(x, SetExprV::Union(Box::new(x), Box::new(y))),
            c,
            env,
        ) == Ok::<bool, ()>(true),
        eval_bool_spec(
            BoolExprV::Subset(SetExprV::Intersect(Box::new(x), Box::new(y)), x),
            c,
            env,
        ) == Ok::<bool, ()>(true),
{
    let u = SetExprV::Union(Box::new(x), Box::new(y));
    let n = SetExprV::Intersect(Box::new(x), Box::new(y));
    assert(eval_set_spec(u, c) == Ok::<SetVal, ()>(SetVal::Vertices(xs.union(ys))));
    assert(eval_set_spec(n, c) == Ok::<SetVal, ()>(SetVal::Vertices(xs.intersect(ys))));
    assert(xs.subset_of(xs.union(ys)));
    assert(xs.intersect(ys).subset_of(xs));
}

/// The set operators on two edge sets, element by element: `|` keeps what
/// is in either, `&` what is in both, `-` what is in the first only, `^`
/// what is in exactly one; the result is again an edge set.
pub proof fn law_set_operators_on_edge_sets(
    x: SetExprV,
    y: SetExprV,
    c: CtxV,
    xs: Set<EdgeView>,
    ys: Set<EdgeView>,
    e: EdgeView,
)
    requires
        eval_set_spec(x, c) == Ok::<SetVal, ()>(SetVal::Edges(xs)),
        eval_set_spec(y, c) == Ok::<SetVal, ()>(SetVal::Edges(ys)),
    ensures
        eval_set_spec(SetExprV::Union(Box::new(x), Box::new(y)), c) matches Ok(SetVal::Edges(s))
            && (s.contains(e) <==> (xs.contains(e) || ys.contains(e))),
        eval_set_spec(SetExprV::Intersect(Box::new(x), Box::new(y)), c) matches Ok(
            SetVal::Edges(s),
        ) && (s.contains(e) <==> (xs.contains(e) && ys.contains(e))),
        eval_set_spec(SetExprV::Diff(Box::new(x), Box::new(y)), c) matches Ok(SetVal::Edges(s))
            && (s.contains(e) <==> (xs.contains(e) && !ys.contains(e))),
        eval_set_spec(SetExprV::SymDiff(Box::new(x), Box::new(y)), c) matches Ok(SetVal::Edges(s))
            && (s.contains(e) <==> (xs.contains(e) != ys.contains(e))),
{
}

/// The set operators on two vertex sets, element by element: `|` keeps
/// what is in either, `&` what is in both, `-` what is in the first only,
/// `^` what is in exactly one; the result is again a vertex set.
pub proof fn law_set_operators_on_vertex_sets(
    x: SetExprV,
    y: SetExprV,
    c: CtxV,
    xs: Set<Label>,
    ys: Set<Label>,
    v: Label,
)
    requires
        eval_set_spec(x, c) == Ok::<SetVal, ()>(SetVal::Vertices(xs)),
        eval_set_spec(y, c) == Ok::<SetVal, ()>(SetVal::Vertices(ys)),
    ensures
        eval_set_spec(SetExprV::Union(Box::new(x), Box::new(y)), c) matches Ok(
            SetVal::Vertices(s),
        ) && (s.contains(v) <==> (xs.contains(v) || ys.contains(v))),
        eval_set_spec(SetExprV::Intersect(Box::new(x), Box::new(y)), c) matches Ok(
            SetVal::Vertices(s),
        ) && (s.contains(v) <==> (xs.contains(v) && ys.contains(v))),
        eval_set_spec(SetExprV::Diff(Box::new(x), Box::new(y)), c) matches Ok(SetVal::Vertices(s))
            && (s.contains(v) <==> (xs.contains(v) && !ys.contains(v))),
        eval_set_spec(SetExprV::SymDiff(Box::new(x), Box::new(y)), c) matches Ok(
            SetVal::Vertices(s),
        ) && (s.contains(v) <==> (xs.contains(v) != ys.contains(v))),
{
}

/// The empty set `{}` changes nothing in a union, a difference or a
/// symmetric difference, whichever kind of set stands on the other side.
pub proof fn law_empty_set_is_neutral(e: SetExprV, c: CtxV)
    ensures
        eval_set_spec(SetExprV::Union(Box::new(e), Box::new(SetExprV::Empty)), c) == eval_set_spec(
            e,
            c,
        ),
        eval_set_spec(SetExprV::Union(Box::new(SetExprV::Empty), Box::new(e)), c) == eval_set_spec(
            e,
            c,
        ),
        eval_set_spec(SetExprV::Diff(Box::new(e), Box::new(SetExprV::Empty)), c) == eval_set_spec(
            e,
            c,
        ),
        eval_set_spec(SetExprV::SymDiff(Box::new(e), Box::new(SetExprV::Empty)), c)
            == eval_set_spec(e, c),
{
    let u1 = SetExprV::Union(Box::new(e), Box::new(SetExprV::Empty));
    let u2 = SetExprV::Union(Box::new(SetExprV::Empty), Box::new(e));
    let d = SetExprV::Diff(Box::new(e), Box::new(SetExprV::Empty));
    let x = SetExprV::SymDiff(Box::new(e), Box::new(SetExprV::Empty));
    let empty = eval_set_spec(SetExprV::Empty, c);
    assert(empty == Ok::<SetVal, ()>(SetVal::Vertices(Set::empty())));
    assert(eval_set_spec(u1, c) == lift2(SetOp::Union, eval_set_spec(e, c), empty));
    assert(eval_set_spec(u2, c) == lift2(SetOp::Union, empty, eval_set_spec(e, c)));
    assert(eval_set_spec(d, c) == lift2(SetOp::Diff, eval_set_spec(e, c), empty));
    assert(eval_set_spec(x, c) == lift2(SetOp::SymDiff, eval_set_spec(e, c), empty));
    match eval_set_spec(e, c) {
        Ok(SetVal::Vertices(s)) => {
            assert(s.union(Set::empty()) =~= s);
            assert(Set::<Label>::empty().union(s) =~= s);
            assert(s.difference(Set::empty()) =~= s);
            assert(s.difference(Set::empty()).union(Set::<Label>::empty().difference(s)) =~= s);
        },
        Ok(SetVal::Edges(s)) => {
            assert(s.union(Set::empty()) =~= s);
            assert(Set::<EdgeView>::empty().union(s) =~= s);
            assert(s.difference(Set::empty()) =~= s);
            assert(s.difference(Set::empty()).union(Set::<EdgeView>::empty().difference(s)) =~= s);
        },
        Err(_) => {},
    }
}

/// The bindings of `x` alone to `b`.
pub open spec fn single_binding(x: Seq<char>, b: BoundV) -> EnvV {
    Map::<Seq<char>, BoundV>::empty().insert(x, b)
}

/// The condition `pred` holds with `x` bound to `b`.
pub open spec fn holds_with(pred: BoolExprV, c: CtxV, x: Seq<char>, b: BoundV) -> bool {
    eval_bool_spec(pred, c, single_binding(x, b)) == Ok::<bool, ()>(true)
}

/// The condition `pred` can be decided with `x` bound to `b`.
pub open spec fn decided_with(pred: BoolExprV, c: CtxV, x: Seq<char>, b: BoundV) -> bool {
    eval_bool_spec(pred, c, single_binding(x, b)) is Ok
}

/// The comprehension `{ x : x in dom, pred }`.
pub open spec fn filter_comprehension(x: Seq<char>, dom: SetExprV, pred: BoolExprV) -> SetExprV {
    SetExprV::Comprehension(OutputV::Var(x), seq![QualV::Binder(x, dom), QualV::Guard(pred)])
}

/// Filtering environments in each of which the condition can be decided
/// keeps exactly those in which it holds.
proof fn lemma_filter_envs_decided(pred: BoolExprV, envs: Seq<EnvV>, c: CtxV)
    requires
        forall|i: int| 0 <= i < envs.len() ==> (#[trigger] eval_bool_spec(pred, c, envs[i])) is Ok,
    ensures
        filter_envs(pred, envs, c) matches Ok(kept) && forall|e: EnvV| #[trigger]
            kept.contains(e) <==> (envs.contains(e) && eval_bool_spec(pred, c, e) == Ok::<
                bool,
                (),
            >(true)),
    decreases envs.len(),
{
    if envs.len() > 0 {
        let rest = envs.drop_last();
        assert forall|i: int| 0 <= i < rest.len() implies (#[trigger] eval_bool_spec(
            pred,
            c,
            rest[i],
        )) is Ok by {
            assert(rest[i] == envs[i]);
        }
        lemma_filter_envs_decided(pred, rest, c);
        assert(eval_bool_spec(pred, c, envs[envs.len() - 1]) is Ok);
        let kept0 = filter_envs(pred, rest, c)->Ok_0;
        let kept = filter_envs(pred, envs, c)->Ok_0;
        assert forall|e: EnvV| #[trigger] kept.contains(e) <==> (envs.contains(e)
            && eval_bool_spec(pred, c, e) == Ok::<bool, ()>(true)) by {
            if envs.contains(e) && e != envs.last() {
                let i = choose|i: int| 0 <= i < envs.len() && envs[i] == e;
                if i == envs.len() - 1 {
                    assert(e == envs.last());
                } else {
                    assert(rest[i] == e);
                }
            }
            if rest.contains(e) {
                let i = choose|i: int| 0 <= i < rest.len() && rest[i] == e;
                assert(envs[i] == e);
            }
            if kept.contains(e) && !kept0.contains(e) {
                let i = choose|i: int| 0 <= i < kept.len() && kept[i] == e;
                assert(i == kept.len() - 1);
            }
            if kept0.contains(e) {
                let i = choose|i: int| 0 <= i < kept0.len() && kept0[i] == e;
                assert(kept[i] == e);
            }
            if e == envs.last() && eval_bool_spec(pred, c, e) == Ok::<bool, ()>(true) {
                assert(kept[kept.len() - 1] == e);
            }
        }
    }
}

/// What a one-binder, one-guard comprehension keeps: the bindings of `x` to
/// the elements of the domain for which the guard holds.
proof fn lemma_filter_comprehension_envs(
    x: Seq<char>,
    dom: SetExprV,
    pred: BoolExprV,
    c: CtxV,
    d: SetVal,
)
    requires
        eval_set_spec(dom, c) == Ok::<SetVal, ()>(d),
        bound_seq(d).len() <= MAX_COMPREHENSION_STATES,
        forall|i: int| 0 <= i < bound_seq(d).len() ==> decided_with(pred, c, x, #[trigger] bound_seq(d)[i]),
    ensures
        comp_quals(seq![QualV::Binder(x, dom), QualV::Guard(pred)], 0, seq![Map::empty()], c) matches Ok(
            kept,
        ) && forall|e: EnvV| #[trigger]
            kept.contains(e) <==> exists|i: int|
                0 <= i < bound_seq(d).len() && e == single_binding(x, bound_seq(d)[i]) && holds_with(
                    pred,
                    c,
                    x,
                    bound_seq(d)[i],
                ),
{
    let quals = seq![QualV::Binder(x, dom), QualV::Guard(pred)];
    let start = seq![Map::<Seq<char>, BoundV>::empty()];
    let elems = bound_seq(d);
    let next = extend(start, x, elems);
    assert(extend(start.drop_last(), x, elems) =~= Seq::<EnvV>::empty());
    assert(next =~= elems.map_values(|b: BoundV| single_binding(x, b)));
    assert(!(exists|i: int| 0 <= i < start.len() && (#[trigger] start[i]).contains_key(x)));
    assert(comp_quals(quals, 0, start, c) == comp_quals(quals, 1, next, c));
    assert forall|i: int| 0 <= i < next.len() implies (#[trigger] eval_bool_spec(
        pred,
        c,
        next[i],
    )) is Ok by {
        assert(next[i] == single_binding(x, elems[i]));
        assert(decided_with(pred, c, x, elems[i]));
    }
    lemma_filter_envs_decided(pred, next, c);
    let kept = filter_envs(pred, next, c)->Ok_0;
    assert(comp_quals(quals, 1, next, c) == comp_quals(quals, 2, kept, c));
    assert(comp_quals(quals, 2, kept, c) == Ok::<Seq<EnvV>, ()>(kept));
    assert forall|e: EnvV| #[trigger] kept.contains(e) <==> exists|i: int|
        0 <= i < elems.len() && e == single_binding(x, elems[i]) && holds_with(
            pred,
            c,
            x,
            elems[i],
        ) by {
        if kept.contains(e) {
            let j = choose|j: int| 0 <= j < next.len() && next[j] == e;
            assert(e == single_binding(x, elems[j]));
        }
        if exists|i: int|
            0 <= i < elems.len() && e == single_binding(x, elems[i]) && holds_with(
                pred,
                c,
                x,
                elems[i],
            ) {
            let i = choose|i: int|
                0 <= i < elems.len() && e == single_binding(x, elems[i]) && holds_with(
                    pred,
                    c,
                    x,
                    elems[i],
                );
            assert(next[i] == e);
        }
    }
}

/// `{ x : x in S, P }` over a finite set of vertices `S` is the set of the
/// vertices of `S` for which `P` holds, wherever `P` can be decided for each
/// of them and the domain is within the comprehension's size limit.
pub proof fn law_vertex_filter_comprehension(
    x: Seq<char>,
    dom: SetExprV,
    pred: BoolExprV,
    c: CtxV,
    s: Set<Label>,
)
    requires
        eval_set_spec(dom, c) == Ok::<SetVal, ()>(SetVal::Vertices(s)),
        s.finite(),
        s.len() <= MAX_COMPREHENSION_STATES,
        forall|v: Label| #[trigger] s.contains(v) ==> decided_with(pred, c, x, BoundV::Vertex(v)),
    ensures
        eval_set_spec(filter_comprehension(x, dom, pred), c) == Ok::<SetVal, ()>(
            SetVal::Vertices(s.filter(|v: Label| holds_with(pred, c, x, BoundV::Vertex(v)))),
        ),
{
    lemma_ordered_exists::<VertexId>(s);
    let o = ordered::<VertexId>(s);
    let d = SetVal::Vertices(s);
    let elems = bound_seq(d);
    assert(elems.len() == s.len());
    assert forall|i: int| 0 <= i < elems.len() implies decided_with(
        pred,
        c,
        x,
        #[trigger] elems[i],
    ) by {
        assert(elems[i] == BoundV::Vertex(o[i]));
        assert(o.to_set().contains(o[i]));
    }
    lemma_filter_comprehension_envs(x, dom, pred, c, d);
    let quals = seq![QualV::Binder(x, dom), QualV::Guard(pred)];
    let kept = comp_quals(quals, 0, seq![Map::empty()], c)->Ok_0;
    assert(!edge_binder(quals, 2, x, c));
    assert(edge_binder(quals, 1, x, c) == edge_binder(quals, 2, x, c));
    assert(!edge_binder(quals, 0, x, c));
    assert(crate::expr::eval::output_ranges_over_edges(OutputV::Var(x), quals, c) == false);
    assert(eval_set_spec(filter_comprehension(x, dom, pred), c) == output_spec(
        OutputV::Var(x),
        kept,
        false,
    ));
    assert forall|i: int| 0 <= i < kept.len() implies (#[trigger] kept[i]).contains_key(x)
        && kept[i][x] is Vertex by {
        assert(kept.contains(kept[i]));
    }
    let want = s.filter(|v: Label| holds_with(pred, c, x, BoundV::Vertex(v)));
    let got = Set::new(
        |v: Label| exists|i: int| 0 <= i < kept.len() && (#[trigger] kept[i])[x] == BoundV::Vertex(v),
    );
    assert forall|v: Label| #[trigger] got.contains(v) <==> want.contains(v) by {
        if got.contains(v) {
            let i = choose|i: int| 0 <= i < kept.len() && (#[trigger] kept[i])[x] == BoundV::Vertex(v);
            assert(kept.contains(kept[i]));
            let j = choose|j: int|
                0 <= j < elems.len() && kept[i] == single_binding(x, elems[j]) && holds_with(
                    pred,
                    c,
                    x,
                    elems[j],
                );
            assert(elems[j] == BoundV::Vertex(o[j]));
            assert(o.to_set().contains(o[j]));
        }
        if want.contains(v) {
            assert(o.to_set().contains(v));
            let j = choose|j: int| 0 <= j < o.len() && o[j] == v;
            assert(elems[j] == BoundV::Vertex(v));
            let e = single_binding(x, elems[j]);
            assert(kept.contains(e));
            let i = choose|i: int| 0 <= i < kept.len() && kept[i] == e;
            assert(kept[i][x] == BoundV::Vertex(v));
        }
    }
    assert(got =~= want);
}

/// `{ x : x in S, P }` over a finite set of edges `S` is the set of the
/// edges of `S` for which `P` holds (an empty set of edges where it holds
/// for none), wherever `P` can be decided for each of them and the domain
/// is within the comprehension's size limit.
pub proof fn law_edge_filter_comprehension(
    x: Seq<char>,
    dom: SetExprV,
    pred: BoolExprV,
    c: CtxV,
    s: Set<EdgeView>,
)
    requires
        eval_set_spec(dom, c) == Ok::<SetVal, ()>(SetVal::Edges(s)),
        s.finite(),
        s.len() <= MAX_COMPREHENSION_STATES,
        forall|e: EdgeView| #[trigger] s.contains(e) ==> decided_with(pred, c, x, BoundV::Edge(e)),
    ensures
        eval_set_spec(filter_comprehension(x, dom, pred), c) == Ok::<SetVal, ()>(
            SetVal::Edges(s.filter(|e: EdgeView| holds_with(pred, c, x, BoundV::Edge(e)))),
        ),
{
    lemma_ordered_exists::<Edge>(s);
    let o = ordered::<Edge>(s);
    let d = SetVal::Edges(s);
    let elems = bound_seq(d);
    assert(elems.len() == s.len());
    assert forall|i: int| 0 <= i < elems.len() implies decided_with(
        pred,
        c,
        x,
        #[trigger] elems[i],
    ) by {
        assert(elems[i] == BoundV::Edge(o[i]));
        assert(o.to_set().contains(o[i]));
    }
    lemma_filter_comprehension_envs(x, dom, pred, c, d);
    let quals = seq![QualV::Binder(x, dom), QualV::Guard(pred)];
    let kept = comp_quals(quals, 0, seq![Map::empty()], c)->Ok_0;
    assert(!edge_binder(quals, 2, x, c));
    assert(edge_binder(quals, 1, x, c) == edge_binder(quals, 2, x, c));
    assert(edge_binder(quals, 0, x, c));
    assert(crate::expr::eval::output_ranges_over_edges(OutputV::Var(x), quals, c) == true);
    assert(eval_set_spec(filter_comprehension(x, dom, pred), c) == output_spec(
        OutputV::Var(x),
        kept,
        true,
    ));
    assert forall|i: int| 0 <= i < kept.len() implies (#[trigger] kept[i]).contains_key(x)
        && kept[i][x] is Edge by {
        assert(kept.contains(kept[i]));
    }
    let want = s.filter(|e: EdgeView| holds_with(pred, c, x, BoundV::Edge(e)));
    let got = Set::new(
        |v: EdgeView| exists|i: int| 0 <= i < kept.len() && (#[trigger] kept[i])[x] == BoundV::Edge(v),
    );
    assert forall|v: EdgeView| #[trigger] got.contains(v) <==> want.contains(v) by {
        if got.contains(v) {
            let i = choose|i: int| 0 <= i < kept.len() && (#[trigger] kept[i])[x] == BoundV::Edge(v);
            assert(kept.contains(kept[i]));
            let j = choose|j: int|
                0 <= j < elems.len() && kept[i] == single_binding(x, elems[j]) && holds_with(
                    pred,
                    c,
                    x,
                    elems[j],
                );
            assert(elems[j] == BoundV::Edge(o[j]));
            assert(o.to_set().contains(o[j]));
        }
        if want.contains(v) {
            assert(o.to_set().contains(v));
            let j = choose|j: int| 0 <= j < o.len() && o[j] == v;
            assert(elems[j] == BoundV::Edge(v));
            let e = single_binding(x, elems[j]);
            assert(kept.contains(e));
            let i = choose|i: int| 0 <= i < kept.len() && kept[i] == e;
            assert(kept[i][x] == BoundV::Edge(v));
        }
    }
    assert(got =~= want);
}

/// Extending environments binds `var` to each element in each of them.
proof fn lemma_extend_contents(envs: Seq<EnvV>, var: Seq<char>, elems: Seq<BoundV>)
    ensures
        extend(envs, var, elems).len() == envs.len() * elems.len(),
        forall|e: EnvV| #[trigger]
            extend(envs, var, elems).contains(e) <==> exists|i: int, j: int|
                0 <= i < envs.len() && 0 <= j < elems.len() && e == envs[i].insert(var, elems[j]),
    decreases envs.len(),
{
    if envs.len() > 0 {
        let rest = envs.drop_last();
        lemma_extend_contents(rest, var, elems);
        let front = extend(rest, var, elems);
        let back = elems.map_values(|b: BoundV| envs.last().insert(var, b));
        let n = envs.len();
        let m = elems.len();
        assert(front.len() + back.len() == n * m) by (nonlinear_arith)
            requires
                front.len() == (n - 1) * m,
                back.len() == m,
        ;
        assert forall|e: EnvV| #[trigger] extend(envs, var, elems).contains(e) <==> exists|
            i: int,
            j: int,
        | 0 <= i < envs.len() && 0 <= j < elems.len() && e == envs[i].insert(var, elems[j]) by {
            let all = extend(envs, var, elems);
            assert(all == front + back);
            if all.contains(e) {
                let k = choose|k: int| 0 <= k < all.len() && all[k] == e;
                if k < front.len() {
                    assert(front.contains(e));
                    let (i, j) = choose|i: int, j: int|
                        0 <= i < rest.len() && 0 <= j < elems.len() && e == rest[i].insert(
                            var,
                            elems[j],
                        );
                    assert(envs[i] == rest[i]);
                } else {
                    let j = k - front.len();
                    assert(back[j] == e);
                    assert(e == envs[n - 1].insert(var, elems[j]));
                }
            }
            if exists|i: int, j: int|
                0 <= i < envs.len() && 0 <= j < elems.len() && e == envs[i].insert(var, elems[j]) {
                let (i, j) = choose|i: int, j: int|
                    0 <= i < envs.len() && 0 <= j < elems.len() && e == envs[i].insert(
                        var,
                        elems[j],
                    );
                if i < n - 1 {
                    assert(rest[i] == envs[i]);
                    assert(front.contains(e));
                    let k = choose|k: int| 0 <= k < front.len() && front[k] == e;
                    assert(all[k] == e);
                } else {
                    assert(back[j] == e);
                    assert(all[front.len() + j] == e);
                }
            }
        }
    } else {
        assert(extend(envs, var, elems).len() == 0);
    }
}

/// The bindings of `u` to `a` and of `v` to `b`.
pub open spec fn pair_binding(u: Seq<char>, a: Label, v: Seq<char>, b: Label) -> EnvV {
    single_binding(u, BoundV::Vertex(a)).insert(v, BoundV::Vertex(b))
}

/// The comprehension `{ (u,v) : u in dom1, v in dom2, pred }`.
pub open spec fn pair_comprehension(
    u: Seq<char>,
    dom1: SetExprV,
    v: Seq<char>,
    dom2: SetExprV,
    pred: BoolExprV,
) -> SetExprV {
    SetExprV::Comprehension(
        OutputV::Pair(u, v),
        seq![QualV::Binder(u, dom1), QualV::Binder(v, dom2), QualV::Guard(pred)],
    )
}

/// `{ (u,v) : u in S, v in T, P }` over finite vertex sets `S` and `T` is
/// the set of the pairs `(a, b)` with `a` in `S` and `b` in `T` for which
/// `P` holds, wherever `P` can be decided for each pair and neither `S`
/// nor the pairs outnumber the comprehension's size limit (the limit holds
/// after each binder).
pub proof fn law_pair_comprehension(
    u: Seq<char>,
    dom1: SetExprV,
    v: Seq<char>,
    dom2: SetExprV,
    pred: BoolExprV,
    c: CtxV,
    s: Set<Label>,
    t: Set<Label>,
)
    requires
        u != v,
        eval_set_spec(dom1, c) == Ok::<SetVal, ()>(SetVal::Vertices(s)),
        eval_set_spec(dom2, c) == Ok::<SetVal, ()>(SetVal::Vertices(t)),
        s.finite(),
        t.finite(),
        s.len() <= MAX_COMPREHENSION_STATES,
        s.len() * t.len() <= MAX_COMPREHENSION_STATES,
        forall|a: Label, b: Label|
            s.contains(a) && t.contains(b) ==> (#[trigger] eval_bool_spec(
                pred,
                c,
                pair_binding(u, a, v, b),
            )) is Ok,
    ensures
        eval_set_spec(pair_comprehension(u, dom1, v, dom2, pred), c) == Ok::<SetVal, ()>(
            SetVal::Edges(
                Set::new(
                    |e: EdgeView|
                        s.contains(e.0) && t.contains(e.1) && eval_bool_spec(
                            pred,
                            c,
                            pair_binding(u, e.0, v, e.1),
                        ) == Ok::<bool, ()>(true),
                ),
            ),
        ),
{
    lemma_ordered_exists::<VertexId>(s);
    lemma_ordered_exists::<VertexId>(t);
    let os = ordered::<VertexId>(s);
    let ot = ordered::<VertexId>(t);
    let e1 = bound_seq(SetVal::Vertices(s));
    let e2 = bound_seq(SetVal::Vertices(t));
    let quals = seq![QualV::Binder(u, dom1), QualV::Binder(v, dom2), QualV::Guard(pred)];
    let start = seq![Map::<Seq<char>, BoundV>::empty()];
    // First binder.
    let next1 = extend(start, u, e1);
    lemma_extend_contents(start, u, e1);
    assert(!(exists|i: int| 0 <= i < start.len() && (#[trigger] start[i]).contains_key(u)));
    assert(1 * e1.len() == e1.len());
    assert(e1.len() <= MAX_COMPREHENSION_STATES);
    assert(comp_quals(quals, 0, start, c) == comp_quals(quals, 1, next1, c));
    // Second binder.
    assert forall|i: int| 0 <= i < next1.len() implies !(#[trigger] next1[i]).contains_key(v) by {
        assert(next1.contains(next1[i]));
        let (k, j) = choose|k: int, j: int|
            0 <= k < start.len() && 0 <= j < e1.len() && next1[i] == start[k].insert(u, e1[j]);
    }
    let next2 = extend(next1, v, e2);
    lemma_extend_contents(next1, v, e2);
    assert(next2.len() <= MAX_COMPREHENSION_STATES);
    assert(comp_quals(quals, 1, next1, c) == comp_quals(quals, 2, next2, c));
    // The environments after both binders.
    assert forall|e: EnvV| #[trigger] next2.contains(e) <==> exists|a: Label, b: Label|
        s.contains(a) && t.contains(b) && e == pair_binding(u, a, v, b) by {
        if next2.contains(e) {
            let (i, j) = choose|i: int, j: int|
                0 <= i < next1.len() && 0 <= j < e2.len() && e == next1[i].insert(v, e2[j]);
            assert(next1.contains(next1[i]));
            let (k, l) = choose|k: int, l: int|
                0 <= k < start.len() && 0 <= l < e1.len() && next1[i] == start[k].insert(u, e1[l]);
            assert(e1[l] == BoundV::Vertex(os[l]));
            assert(e2[j] == BoundV::Vertex(ot[j]));
            assert(os.to_set().contains(os[l]));
            assert(ot.to_set().contains(ot[j]));
            assert(e == pair_binding(u, os[l], v, ot[j]));
        }
        if exists|a: Label, b: Label| s.contains(a) && t.contains(b) && e == pair_binding(u, a, v, b) {
            let (a, b) = choose|a: Label, b: Label|
                s.contains(a) && t.contains(b) && e == pair_binding(u, a, v, b);
            assert(os.to_set().contains(a));
            assert(ot.to_set().contains(b));
            let l = choose|l: int| 0 <= l < os.len() && os[l] == a;
            let j = choose|j: int| 0 <= j < ot.len() && ot[j] == b;
            assert(e1[l] == BoundV::Vertex(a));
            assert(e2[j] == BoundV::Vertex(b));
            let m = start[0].insert(u, e1[l]);
            assert(next1.contains(m));
            let i = choose|i: int| 0 <= i < next1.len() && next1[i] == m;
            assert(e == next1[i].insert(v, e2[j]));
        }
    }
    // The guard.
    assert forall|i: int| 0 <= i < next2.len() implies (#[trigger] eval_bool_spec(
        pred,
        c,
        next2[i],
    )) is Ok by {
        assert(next2.contains(next2[i]));
        let (a, b) = choose|a: Label, b: Label|
            s.contains(a) && t.contains(b) && next2[i] == pair_binding(u, a, v, b);
    }
    lemma_filter_envs_decided(pred, next2, c);
    let kept = filter_envs(pred, next2, c)->Ok_0;
    assert(comp_quals(quals, 2, next2, c) == comp_quals(quals, 3, kept, c));
    assert(comp_quals(quals, 3, kept, c) == Ok::<Seq<EnvV>, ()>(kept));
    assert(eval_set_spec(pair_comprehension(u, dom1, v, dom2, pred), c) == output_spec(
        OutputV::Pair(u, v),
        kept,
        true,
    ));
    // The output.
    assert forall|i: int| 0 <= i < kept.len() implies exists|a: Label, b: Label|
        s.contains(a) && t.contains(b) && (#[trigger] kept[i]) == pair_binding(u, a, v, b)
            && eval_bool_spec(pred, c, kept[i]) == Ok::<bool, ()>(true) by {
        assert(kept.contains(kept[i]));
    }
    let want = Set::new(
        |e: EdgeView|
            s.contains(e.0) && t.contains(e.1) && eval_bool_spec(
                pred,
                c,
                pair_binding(u, e.0, v, e.1),
            ) == Ok::<bool, ()>(true),
    );
    assert forall|i: int| 0 <= i < kept.len() implies !(crate::expr::eval::require_vertex_spec(
        #[trigger] kept[i],
        u,
    ) is Err || crate::expr::eval::require_vertex_spec(kept[i], v) is Err) by {
        let (a, b) = choose|a: Label, b: Label|
            s.contains(a) && t.contains(b) && kept[i] == pair_binding(u, a, v, b)
                && eval_bool_spec(pred, c, kept[i]) == Ok::<bool, ()>(true);
    }
    let got = Set::new(
        |x: EdgeView|
            exists|i: int|
                0 <= i < kept.len() && x == (
                    crate::expr::eval::require_vertex_spec(#[trigger] kept[i], u)->Ok_0,
                    crate::expr::eval::require_vertex_spec(kept[i], v)->Ok_0,
                ),
    );
    assert forall|x: EdgeView| #[trigger] got.contains(x) <==> want.contains(x) by {
        if got.contains(x) {
            let i = choose|i: int|
                0 <= i < kept.len() && x == (
                    crate::expr::eval::require_vertex_spec(#[trigger] kept[i], u)->Ok_0,
                    crate::expr::eval::require_vertex_spec(kept[i], v)->Ok_0,
                );
            let (a, b) = choose|a: Label, b: Label|
                s.contains(a) && t.contains(b) && kept[i] == pair_binding(u, a, v, b)
                    && eval_bool_spec(pred, c, kept[i]) == Ok::<bool, ()>(true);
            assert(x == (a, b));
        }
        if want.contains(x) {
            let e = pair_binding(u, x.0, v, x.1);
            assert(next2.contains(e));
            assert(kept.contains(e));
            let i = choose|i: int| 0 <= i < kept.len() && kept[i] == e;
            assert(crate::expr::eval::require_vertex_spec(kept[i], u)->Ok_0 == x.0);
            assert(crate::expr::eval::require_vertex_spec(kept[i], v)->Ok_0 == x.1);
        }
    }
    assert(got =~= want);
}

/// The elements of a set value, as values a variable can be bound to.
pub open spec fn bound_elements(d: SetVal) -> Set<BoundV> {
    match d {
        SetVal::Vertices(s) => Set::new(|b: BoundV| b matches BoundV::Vertex(v) && s.contains(v)),
        SetVal::Edges(s) => Set::new(|b: BoundV| b matches BoundV::Edge(e) && s.contains(e)),
    }
}

/// The elements that a quantifier walks through are those of its domain.
proof fn lemma_bound_seq_elements(d: SetVal)
    requires
        match d {
            SetVal::Vertices(s) => s.finite(),
            SetVal::Edges(s) => s.finite(),
        },
    ensures
        forall|b: BoundV| #[trigger]
            bound_elements(d).contains(b) <==> bound_seq(d).contains(b),
{
    match d {
        SetVal::Vertices(s) => {
            lemma_ordered_exists::<VertexId>(s);
            let o = ordered::<VertexId>(s);
            assert forall|b: BoundV| #[trigger]
                bound_elements(d).contains(b) <==> bound_seq(d).contains(b) by {
                if bound_elements(d).contains(b) {
                    let v = b->Vertex_0;
                    assert(o.to_set().contains(v));
                    let i = choose|i: int| 0 <= i < o.len() && o[i] == v;
                    assert(bound_seq(d)[i] == b);
                }
                if bound_seq(d).contains(b) {
                    let i = choose|i: int| 0 <= i < bound_seq(d).len() && bound_seq(d)[i] == b;
                    assert(o.to_set().contains(o[i]));
                }
            }
        },
        SetVal::Edges(s) => {
            lemma_ordered_exists::<Edge>(s);
            let o = ordered::<Edge>(s);
            assert forall|b: BoundV| #[trigger]
                bound_elements(d).contains(b) <==> bound_seq(d).contains(b) by {
                if bound_elements(d).contains(b) {
                    let e = b->Edge_0;
                    assert(o.to_set().contains(e));
                    let i = choose|i: int| 0 <= i < o.len() && o[i] == e;
                    assert(bound_seq(d)[i] == b);
                }
                if bound_seq(d).contains(b) {
                    let i = choose|i: int| 0 <= i < bound_seq(d).len() && bound_seq(d)[i] == b;
                    assert(o.to_set().contains(o[i]));
                }
            }
        },
    }
}

/// Walking a quantifier from the `i`-th element on, where the body can be
/// decided for every element.
proof fn lemma_quant_walk(b: BoolExprV, elems: Seq<BoundV>, i: int, c: CtxV, env: EnvV)
    requires
        0 <= i <= elems.len(),
        b is ForAll || b is Exists,
        forall|j: int|
            0 <= j < elems.len() ==> (#[trigger] eval_bool_spec(
                *quant_body(b),
                c,
                env.insert(quant_var(b), elems[j]),
            )) is Ok,
    ensures
        b is ForAll ==> crate::expr::eval::quant_spec(b, elems, i, c, env) == Ok::<bool, ()>(
            forall|j: int|
                i <= j < elems.len() ==> #[trigger] eval_bool_spec(
                    *quant_body(b),
                    c,
                    env.insert(quant_var(b), elems[j]),
                ) == Ok::<bool, ()>(true),
        ),
        b is Exists ==> crate::expr::eval::quant_spec(b, elems, i, c, env) == Ok::<bool, ()>(
            exists|j: int|
                i <= j < elems.len() && #[trigger] eval_bool_spec(
                    *quant_body(b),
                    c,
                    env.insert(quant_var(b), elems[j]),
                ) == Ok::<bool, ()>(true),
        ),
    decreases elems.len() - i,
{
    if i < elems.len() {
        lemma_quant_walk(b, elems, i + 1, c, env);
        assert(eval_bool_spec(*quant_body(b), c, env.insert(quant_var(b), elems[i])) is Ok);
    }
}

/// The variable a quantifier binds.
pub open spec fn quant_var(b: BoolExprV) -> Seq<char> {
    match b {
        BoolExprV::ForAll(x, _, _) => x,
        BoolExprV::Exists(x, _, _) => x,
        _ => Seq::empty(),
    }
}

/// The body of a quantifier.
pub open spec fn quant_body(b: BoolExprV) -> Box<BoolExprV> {
    match b {
        BoolExprV::ForAll(_, _, body) => body,
        BoolExprV::Exists(_, _, body) => body,
        _ => Box::new(b),
    }
}

/// `forall x in S . P` holds where `P` holds for every element of `S`, and
/// `exists x in S . P` where it holds for some element, wherever `x` is not
/// bound already, `S` is finite and `P` can be decided for every element.
pub proof fn law_quantifiers(
    x: Seq<char>,
    dom: SetExprV,
    body: BoolExprV,
    c: CtxV,
    env: EnvV,
    d: SetVal,
)
    requires
        !env.contains_key(x),
        eval_set_spec(dom, c) == Ok::<SetVal, ()>(d),
        match d {
            SetVal::Vertices(s) => s.finite(),
            SetVal::Edges(s) => s.finite(),
        },
        forall|b: BoundV| #[trigger]
            bound_elements(d).contains(b) ==> eval_bool_spec(body, c, env.insert(x, b)) is Ok,
    ensures
        eval_bool_spec(BoolExprV::ForAll(x, dom, Box::new(body)), c, env) == Ok::<bool, ()>(
            forall|b: BoundV| #[trigger]
                bound_elements(d).contains(b) ==> eval_bool_spec(body, c, env.insert(x, b))
                    == Ok::<bool, ()>(true),
        ),
        eval_bool_spec(BoolExprV::Exists(x, dom, Box::new(body)), c, env) == Ok::<bool, ()>(
            exists|b: BoundV| #[trigger]
                bound_elements(d).contains(b) && eval_bool_spec(body, c, env.insert(x, b))
                    == Ok::<bool, ()>(true),
        ),
{
    lemma_bound_seq_elements(d);
    let elems = bound_seq(d);
    let fa = BoolExprV::ForAll(x, dom, Box::new(body));
    let ex = BoolExprV::Exists(x, dom, Box::new(body));
    assert forall|j: int| 0 <= j < elems.len() implies (#[trigger] eval_bool_spec(
        body,
        c,
        env.insert(x, elems[j]),
    )) is Ok by {
        assert(elems.contains(elems[j]));
        assert(bound_elements(d).contains(elems[j]));
    }
    lemma_quant_walk(fa, elems, 0, c, env);
    lemma_quant_walk(ex, elems, 0, c, env);
    let all_seq = forall|j: int|
        0 <= j < elems.len() ==> #[trigger] eval_bool_spec(body, c, env.insert(x, elems[j]))
            == Ok::<bool, ()>(true);
    let all_set = forall|b: BoundV| #[trigger]
        bound_elements(d).contains(b) ==> eval_bool_spec(body, c, env.insert(x, b)) == Ok::<
            bool,
            (),
        >(true);
    if all_seq {
        assert forall|b: BoundV| #[trigger] bound_elements(d).contains(b) implies eval_bool_spec(
            body,
            c,
            env.insert(x, b),
        ) == Ok::<bool, ()>(true) by {
            assert(elems.contains(b));
            let j = choose|j: int| 0 <= j < elems.len() && elems[j] == b;
            assert(eval_bool_spec(body, c, env.insert(x, elems[j])) == Ok::<bool, ()>(true));
        }
    }
    if all_set {
        assert forall|j: int| 0 <= j < elems.len() implies #[trigger] eval_bool_spec(
            body,
            c,
            env.insert(x, elems[j]),
        ) == Ok::<bool, ()>(true) by {
            assert(elems.contains(elems[j]));
            assert(bound_elements(d).contains(elems[j]));
        }
    }
    let some_seq = exists|j: int|
        0 <= j < elems.len() && #[trigger] eval_bool_spec(body, c, env.insert(x, elems[j]))
            == Ok::<bool, ()>(true);
    let some_set = exists|b: BoundV| #[trigger]
        bound_elements(d).contains(b) && eval_bool_spec(body, c, env.insert(x, b)) == Ok::<
            bool,
            (),
        >(true);
    if some_seq {
        let j = choose|j: int|
            0 <= j < elems.len() && #[trigger] eval_bool_spec(body, c, env.insert(x, elems[j]))
                == Ok::<bool, ()>(true);
        assert(elems.contains(elems[j]));
        assert(bound_elements(d).contains(elems[j]));
    }
    if some_set {
        let b = choose|b: BoundV| #[trigger]
            bound_elements(d).contains(b) && eval_bool_spec(body, c, env.insert(x, b)) == Ok::<
                bool,
                (),
            >(true);
        assert(elems.contains(b));
        let j = choose|j: int| 0 <= j < elems.len() && elems[j] == b;
        assert(eval_bool_spec(body, c, env.insert(x, elems[j])) == Ok::<bool, ()>(true));
    }
}


/// Each binary set operator token builds its own operation: `a | b`,
/// `a & b`, `a - b` and `a ^ b` after `n =` define `n` as the union,
/// intersection, difference and symmetric difference of the sets named
/// `a` and `b`, whatever the names.
pub proof fn law_binary_operator_tokens(n: Seq<char>, a: Seq<char>, b: Seq<char>)
    ensures
        sp_statement(seq![TokV::Ident(n), TokV::Eq, TokV::Ident(a), TokV::Union, TokV::Ident(b)])
            == Ok::<StmtV, Seq<char>>(
            StmtV::DefineSet(
                n,
                SetExprV::Union(Box::new(SetExprV::Name(a)), Box::new(SetExprV::Name(b))),
            ),
        ),
        sp_statement(seq![TokV::Ident(n), TokV::Eq, TokV::Ident(a), TokV::Intersect, TokV::Ident(b)])
            == Ok::<StmtV, Seq<char>>(
            StmtV::DefineSet(
                n,
                SetExprV::Intersect(Box::new(SetExprV::Name(a)), Box::new(SetExprV::Name(b))),
            ),
        ),
        sp_statement(seq![TokV::Ident(n), TokV::Eq, TokV::Ident(a), TokV::Diff, TokV::Ident(b)])
            == Ok::<StmtV, Seq<char>>(
            StmtV::DefineSet(
                n,
                SetExprV::Diff(Box::new(SetExprV::Name(a)), Box::new(SetExprV::Name(b))),
            ),
        ),
        sp_statement(seq![TokV::Ident(n), TokV::Eq, TokV::Ident(a), TokV::SymDiff, TokV::Ident(b)])
            == Ok::<StmtV, Seq<char>>(
            StmtV::DefineSet(
                n,
                SetExprV::SymDiff(Box::new(SetExprV::Name(a)), Box::new(SetExprV::Name(b))),
            ),
        ),
{
    lemma_operator_token_union(n, a, b);
    lemma_operator_token_intersect(n, a, b);
    lemma_operator_token_diff(n, a, b);
    lemma_operator_token_symdiff(n, a, b);
}

proof fn lemma_operator_token_union(n: Seq<char>, a: Seq<char>, b: Seq<char>)
    ensures
        sp_statement(seq![TokV::Ident(n), TokV::Eq, TokV::Ident(a), TokV::Union, TokV::Ident(b)])
            == Ok::<StmtV, Seq<char>>(
            StmtV::DefineSet(
                n,
                SetExprV::Union(Box::new(SetExprV::Name(a)), Box::new(SetExprV::Name(b))),
            ),
        ),
{
    let ts = seq![TokV::Ident(n), TokV::Eq, TokV::Ident(a), TokV::Union, TokV::Ident(b)];
    let na = SetExprV::Name(a);
    let nb = SetExprV::Name(b);
    let r = SetExprV::Union(Box::new(na), Box::new(nb));
    assert(sp_primary(ts, 2) == Ok::<(SetExprV, int), Seq<char>>((na, 3)));
    assert(sp_primary(ts, 4) == Ok::<(SetExprV, int), Seq<char>>((nb, 5)));
    assert(sp_intersect_tail(ts, na, 3) == Ok::<(SetExprV, int), Seq<char>>((na, 3)));
    assert(sp_intersect(ts, 2) == Ok::<(SetExprV, int), Seq<char>>((na, 3)));
    assert(sp_diffsym_tail(ts, na, 3) == Ok::<(SetExprV, int), Seq<char>>((na, 3)));
    assert(sp_diffsym(ts, 2) == Ok::<(SetExprV, int), Seq<char>>((na, 3)));
    assert(sp_intersect_tail(ts, nb, 5) == Ok::<(SetExprV, int), Seq<char>>((nb, 5)));
    assert(sp_intersect(ts, 4) == Ok::<(SetExprV, int), Seq<char>>((nb, 5)));
    assert(sp_diffsym_tail(ts, nb, 5) == Ok::<(SetExprV, int), Seq<char>>((nb, 5)));
    assert(sp_diffsym(ts, 4) == Ok::<(SetExprV, int), Seq<char>>((nb, 5)));
    assert(sp_union_tail(ts, r, 5) == Ok::<(SetExprV, int), Seq<char>>((r, 5)));
    assert(sp_union_tail(ts, na, 3) == Ok::<(SetExprV, int), Seq<char>>((r, 5)));
    assert(sp_union(ts, 2) == Ok::<(SetExprV, int), Seq<char>>((r, 5)));
    assert(sp_set_expr(ts, 2) == Ok::<(SetExprV, int), Seq<char>>((r, 5)));
}

proof fn lemma_operator_token_intersect(n: Seq<char>, a: Seq<char>, b: Seq<char>)
    ensures
        sp_statement(seq![TokV::Ident(n), TokV::Eq, TokV::Ident(a), TokV::Intersect, TokV::Ident(b)])
            == Ok::<StmtV, Seq<char>>(
            StmtV::DefineSet(
                n,
                SetExprV::Intersect(Box::new(SetExprV::Name(a)), Box::new(SetExprV::Name(b))),
            ),
        ),
{
    let ts = seq![TokV::Ident(n), TokV::Eq, TokV::Ident(a), TokV::Intersect, TokV::Ident(b)];
    let na = SetExprV::Name(a);
    let nb = SetExprV::Name(b);
    let r = SetExprV::Intersect(Box::new(na), Box::new(nb));
    assert(sp_primary(ts, 2) == Ok::<(SetExprV, int), Seq<char>>((na, 3)));
    assert(sp_primary(ts, 4) == Ok::<(SetExprV, int), Seq<char>>((nb, 5)));
    assert(sp_intersect_tail(ts, r, 5) == Ok::<(SetExprV, int), Seq<char>>((r, 5)));
    assert(sp_intersect_tail(ts, na, 3) == Ok::<(SetExprV, int), Seq<char>>((r, 5)));
    assert(sp_intersect(ts, 2) == Ok::<(SetExprV, int), Seq<char>>((r, 5)));
    assert(sp_diffsym_tail(ts, r, 5) == Ok::<(SetExprV, int), Seq<char>>((r, 5)));
    assert(sp_diffsym(ts, 2) == Ok::<(SetExprV, int), Seq<char>>((r, 5)));
    assert(sp_union_tail(ts, r, 5) == Ok::<(SetExprV, int), Seq<char>>((r, 5)));
    assert(sp_union(ts, 2) == Ok::<(SetExprV, int), Seq<char>>((r, 5)));
    assert(sp_set_expr(ts, 2) == Ok::<(SetExprV, int), Seq<char>>((r, 5)));
}

proof fn lemma_operator_token_diff(n: Seq<char>, a: Seq<char>, b: Seq<char>)
    ensures
        sp_statement(seq![TokV::Ident(n), TokV::Eq, TokV::Ident(a), TokV::Diff, TokV::Ident(b)])
            == Ok::<StmtV, Seq<char>>(
            StmtV::DefineSet(
                n,
                SetExprV::Diff(Box::new(SetExprV::Name(a)), Box::new(SetExprV::Name(b))),
            ),
        ),
{
    let ts = seq![TokV::Ident(n), TokV::Eq, TokV::Ident(a), TokV::Diff, TokV::Ident(b)];
    let na = SetExprV::Name(a);
    let nb = SetExprV::Name(b);
    let r = SetExprV::Diff(Box::new(na), Box::new(nb));
    assert(sp_primary(ts, 2) == Ok::<(SetExprV, int), Seq<char>>((na, 3)));
    assert(sp_primary(ts, 4) == Ok::<(SetExprV, int), Seq<char>>((nb, 5)));
    assert(sp_intersect_tail(ts, na, 3) == Ok::<(SetExprV, int), Seq<char>>((na, 3)));
    assert(sp_intersect(ts, 2) == Ok::<(SetExprV, int), Seq<char>>((na, 3)));
    assert(sp_intersect_tail(ts, nb, 5) == Ok::<(SetExprV, int), Seq<char>>((nb, 5)));
    assert(sp_intersect(ts, 4) == Ok::<(SetExprV, int), Seq<char>>((nb, 5)));
    assert(sp_diffsym_tail(ts, r, 5) == Ok::<(SetExprV, int), Seq<char>>((r, 5)));
    assert(sp_diffsym_tail(ts, na, 3) == Ok::<(SetExprV, int), Seq<char>>((r, 5)));
    assert(sp_diffsym(ts, 2) == Ok::<(SetExprV, int), Seq<char>>((r, 5)));
    assert(sp_union_tail(ts, r, 5) == Ok::<(SetExprV, int), Seq<char>>((r, 5)));
    assert(sp_union(ts, 2) == Ok::<(SetExprV, int), Seq<char>>((r, 5)));
    assert(sp_set_expr(ts, 2) == Ok::<(SetExprV, int), Seq<char>>((r, 5)));
}

proof fn lemma_operator_token_symdiff(n: Seq<char>, a: Seq<char>, b: Seq<char>)
    ensures
        sp_statement(seq![TokV::Ident(n), TokV::Eq, TokV::Ident(a), TokV::SymDiff, TokV::Ident(b)])
            == Ok::<StmtV, Seq<char>>(
            StmtV::DefineSet(
                n,
                SetExprV::SymDiff(Box::new(SetExprV::Name(a)), Box::new(SetExprV::Name(b))),
            ),
        ),
{
    let ts = seq![TokV::Ident(n), TokV::Eq, TokV::Ident(a), TokV::SymDiff, TokV::Ident(b)];
    let na = SetExprV::Name(a);
    let nb = SetExprV::Name(b);
    let r = SetExprV::SymDiff(Box::new(na), Box::new(nb));
    assert(sp_primary(ts, 2) == Ok::<(SetExprV, int), Seq<char>>((na, 3)));
    assert(sp_primary(ts, 4) == Ok::<(SetExprV, int), Seq<char>>((nb, 5)));
    assert(sp_intersect_tail(ts, na, 3) == Ok::<(SetExprV, int), Seq<char>>((na, 3)));
    assert(sp_intersect(ts, 2) == Ok::<(SetExprV, int), Seq<char>>((na, 3)));
    assert(sp_intersect_tail(ts, nb, 5) == Ok::<(SetExprV, int), Seq<char>>((nb, 5)));
    assert(sp_intersect(ts, 4) == Ok::<(SetExprV, int), Seq<char>>((nb, 5)));
    assert(sp_diffsym_tail(ts, r, 5) == Ok::<(SetExprV, int), Seq<char>>((r, 5)));
    assert(sp_diffsym_tail(ts, na, 3) == Ok::<(SetExprV, int), Seq<char>>((r, 5)));
    assert(sp_diffsym(ts, 2) == Ok::<(SetExprV, int), Seq<char>>((r, 5)));
    assert(sp_union_tail(ts, r, 5) == Ok::<(SetExprV, int), Seq<char>>((r, 5)));
    assert(sp_union(ts, 2) == Ok::<(SetExprV, int), Seq<char>>((r, 5)));
    assert(sp_set_expr(ts, 2) == Ok::<(SetExprV, int), Seq<char>>((r, 5)));
}


/// How operators group: `|`, `-` and `^` group from the left, and `&`
/// binds tighter than `-` and `^`, which bind tighter than `|`; so
/// `a | b | c` is `(a | b) | c`, `a - b ^ c` is `(a - b) ^ c`,
/// `a | b & c` is `a | (b & c)`, `a & b - c` is `(a & b) - c` and
/// `a - b | c` is `(a - b) | c`, whatever the names.
pub proof fn law_operator_grouping(n: Seq<char>, a: Seq<char>, b: Seq<char>, c: Seq<char>)
    ensures
        sp_statement(
            seq![
                TokV::Ident(n),
                TokV::Eq,
                TokV::Ident(a),
                TokV::Union,
                TokV::Ident(b),
                TokV::Union,
                TokV::Ident(c),
            ],
        ) == Ok::<StmtV, Seq<char>>(StmtV::DefineSet(n, SetExprV::Union(Box::new(SetExprV::Union(Box::new(SetExprV::Name(a)), Box::new(SetExprV::Name(b)))), Box::new(SetExprV::Name(c))))),
        sp_statement(
            seq![
                TokV::Ident(n),
                TokV::Eq,
                TokV::Ident(a),
                TokV::Diff,
                TokV::Ident(b),
                TokV::SymDiff,
                TokV::Ident(c),
            ],
        ) == Ok::<StmtV, Seq<char>>(StmtV::DefineSet(n, SetExprV::SymDiff(Box::new(SetExprV::Diff(Box::new(SetExprV::Name(a)), Box::new(SetExprV::Name(b)))), Box::new(SetExprV::Name(c))))),
        sp_statement(
            seq![
                TokV::Ident(n),
                TokV::Eq,
                TokV::Ident(a),
                TokV::Union,
                TokV::Ident(b),
                TokV::Intersect,
                TokV::Ident(c),
            ],
        ) == Ok::<StmtV, Seq<char>>(StmtV::DefineSet(n, SetExprV::Union(Box::new(SetExprV::Name(a)), Box::new(SetExprV::Intersect(Box::new(SetExprV::Name(b)), Box::new(SetExprV::Name(c))))))),
        sp_statement(
            seq![
                TokV::Ident(n),
                TokV::Eq,
                TokV::Ident(a),
                TokV::Intersect,
                TokV::Ident(b),
                TokV::Diff,
                TokV::Ident(c),
            ],
        ) == Ok::<StmtV, Seq<char>>(StmtV::DefineSet(n, SetExprV::Diff(Box::new(SetExprV::Intersect(Box::new(SetExprV::Name(a)), Box::new(SetExprV::Name(b)))), Box::new(SetExprV::Name(c))))),
        sp_statement(
            seq![
                TokV::Ident(n),
                TokV::Eq,
                TokV::Ident(a),
                TokV::Diff,
                TokV::Ident(b),
                TokV::Union,
                TokV::Ident(c),
            ],
        ) == Ok::<StmtV, Seq<char>>(StmtV::DefineSet(n, SetExprV::Union(Box::new(SetExprV::Diff(Box::new(SetExprV::Name(a)), Box::new(SetExprV::Name(b)))), Box::new(SetExprV::Name(c))))),
{
    lemma_grouping_union_is_left_associative(n, a, b, c);
    lemma_grouping_difference_is_left_associative(n, a, b, c);
    lemma_grouping_intersection_binds_tighter_than_union(n, a, b, c);
    lemma_grouping_intersection_binds_tighter_than_difference(n, a, b, c);
    lemma_grouping_difference_binds_tighter_than_union(n, a, b, c);
}

proof fn lemma_grouping_union_is_left_associative(n: Seq<char>, a: Seq<char>, b: Seq<char>, c: Seq<char>)
    ensures
        sp_statement(
            seq![
                TokV::Ident(n),
                TokV::Eq,
                TokV::Ident(a),
                TokV::Union,
                TokV::Ident(b),
                TokV::Union,
                TokV::Ident(c),
            ],
        ) == Ok::<StmtV, Seq<char>>(StmtV::DefineSet(n, SetExprV::Union(Box::new(SetExprV::Union(Box::new(SetExprV::Name(a)), Box::new(SetExprV::Name(b)))), Box::new(SetExprV::Name(c))))),
{
    let ts = seq![
        TokV::Ident(n),
        TokV::Eq,
        TokV::Ident(a),
        TokV::Union,
        TokV::Ident(b),
        TokV::Union,
        TokV::Ident(c),
    ];
    assert(sp_primary(ts, 2) == Ok::<(SetExprV, int), Seq<char>>((SetExprV::Name(a), 3)));
    assert(sp_intersect_tail(ts, SetExprV::Name(a), 3) == Ok::<(SetExprV, int), Seq<char>>((SetExprV::Name(a), 3)));
    assert(sp_intersect(ts, 2) == Ok::<(SetExprV, int), Seq<char>>((SetExprV::Name(a), 3)));
    assert(sp_diffsym_tail(ts, SetExprV::Name(a), 3) == Ok::<(SetExprV, int), Seq<char>>((SetExprV::Name(a), 3)));
    assert(sp_diffsym(ts, 2) == Ok::<(SetExprV, int), Seq<char>>((SetExprV::Name(a), 3)));
    assert(sp_primary(ts, 4) == Ok::<(SetExprV, int), Seq<char>>((SetExprV::Name(b), 5)));
    assert(sp_intersect_tail(ts, SetExprV::Name(b), 5) == Ok::<(SetExprV, int), Seq<char>>((SetExprV::Name(b), 5)));
    assert(sp_intersect(ts, 4) == Ok::<(SetExprV, int), Seq<char>>((SetExprV::Name(b), 5)));
    assert(sp_diffsym_tail(ts, SetExprV::Name(b), 5) == Ok::<(SetExprV, int), Seq<char>>((SetExprV::Name(b), 5)));
    assert(sp_diffsym(ts, 4) == Ok::<(SetExprV, int), Seq<char>>((SetExprV::Name(b), 5)));
    assert(sp_primary(ts, 6) == Ok::<(SetExprV, int), Seq<char>>((SetExprV::Name(c), 7)));
    assert(sp_intersect_tail(ts, SetExprV::Name(c), 7) == Ok::<(SetExprV, int), Seq<char>>((SetExprV::Name(c), 7)));
    assert(sp_intersect(ts, 6) == Ok::<(SetExprV, int), Seq<char>>((SetExprV::Name(c), 7)));
    assert(sp_diffsym_tail(ts, SetExprV::Name(c), 7) == Ok::<(SetExprV, int), Seq<char>>((SetExprV::Name(c), 7)));
    assert(sp_diffsym(ts, 6) == Ok::<(SetExprV, int), Seq<char>>((SetExprV::Name(c), 7)));
    assert(sp_union_tail(ts, SetExprV::Union(Box::new(SetExprV::Union(Box::new(SetExprV::Name(a)), Box::new(SetExprV::Name(b)))), Box::new(SetExprV::Name(c))), 7) == Ok::<(SetExprV, int), Seq<char>>((SetExprV::Union(Box::new(SetExprV::Union(Box::new(SetExprV::Name(a)), Box::new(SetExprV::Name(b)))), Box::new(SetExprV::Name(c))), 7)));
    assert(sp_union_tail(ts, SetExprV::Union(Box::new(SetExprV::Name(a)), Box::new(SetExprV::Name(b))), 5) == Ok::<(SetExprV, int), Seq<char>>((SetExprV::Union(Box::new(SetExprV::Union(Box::new(SetExprV::Name(a)), Box::new(SetExprV::Name(b)))), Box::new(SetExprV::Name(c))), 7)));
    assert(sp_union_tail(ts, SetExprV::Name(a), 3) == Ok::<(SetExprV, int), Seq<char>>((SetExprV::Union(Box::new(SetExprV::Union(Box::new(SetExprV::Name(a)), Box::new(SetExprV::Name(b)))), Box::new(SetExprV::Name(c))), 7)));
    assert(sp_union(ts, 2) == Ok::<(SetExprV, int), Seq<char>>((SetExprV::Union(Box::new(SetExprV::Union(Box::new(SetExprV::Name(a)), Box::new(SetExprV::Name(b)))), Box::new(SetExprV::Name(c))), 7)));
    assert(sp_set_expr(ts, 2) == Ok::<(SetExprV, int), Seq<char>>((SetExprV::Union(Box::new(SetExprV::Union(Box::new(SetExprV::Name(a)), Box::new(SetExprV::Name(b)))), Box::new(SetExprV::Name(c))), 7)));
}

proof fn lemma_grouping_difference_is_left_associative(n: Seq<char>, a: Seq<char>, b: Seq<char>, c: Seq<char>)
    ensures
        sp_statement(
            seq![
                TokV::Ident(n),
                TokV::Eq,
                TokV::Ident(a),
                TokV::Diff,
                TokV::Ident(b),
                TokV::SymDiff,
                TokV::Ident(c),
            ],
        ) == Ok::<StmtV, Seq<char>>(StmtV::DefineSet(n, SetExprV::SymDiff(Box::new(SetExprV::Diff(Box::new(SetExprV::Name(a)), Box::new(SetExprV::Name(b)))), Box::new(SetExprV::Name(c))))),
{
    let ts = seq![
        TokV::Ident(n),
        TokV::Eq,
        TokV::Ident(a),
        TokV::Diff,
        TokV::Ident(b),
        TokV::SymDiff,
        TokV::Ident(c),
    ];
    assert(sp_primary(ts, 2) == Ok::<(SetExprV, int), Seq<char>>((SetExprV::Name(a), 3)));
    assert(sp_intersect_tail(ts, SetExprV::Name(a), 3) == Ok::<(SetExprV, int), Seq<char>>((SetExprV::Name(a), 3)));
    assert(sp_intersect(ts, 2) == Ok::<(SetExprV, int), Seq<char>>((SetExprV::Name(a), 3)));
    assert(sp_primary(ts, 4) == Ok::<(SetExprV, int), Seq<char>>((SetExprV::Name(b), 5)));
    assert(sp_intersect_tail(ts, SetExprV::Name(b), 5) == Ok::<(SetExprV, int), Seq<char>>((SetExprV::Name(b), 5)));
    assert(sp_intersect(ts, 4) == Ok::<(SetExprV, int), Seq<char>>((SetExprV::Name(b), 5)));
    assert(sp_primary(ts, 6) == Ok::<(SetExprV, int), Seq<char>>((SetExprV::Name(c), 7)));
    assert(sp_intersect_tail(ts, SetExprV::Name(c), 7) == Ok::<(SetExprV, int), Seq<char>>((SetExprV::Name(c), 7)));
    assert(sp_intersect(ts, 6) == Ok::<(SetExprV, int), Seq<char>>((SetExprV::Name(c), 7)));
    assert(sp_diffsym_tail(ts, SetExprV::SymDiff(Box::new(SetExprV::Diff(Box::new(SetExprV::Name(a)), Box::new(SetExprV::Name(b)))), Box::new(SetExprV::Name(c))), 7) == Ok::<(SetExprV, int), Seq<char>>((SetExprV::SymDiff(Box::new(SetExprV::Diff(Box::new(SetExprV::Name(a)), Box::new(SetExprV::Name(b)))), Box::new(SetExprV::Name(c))), 7)));
    assert(sp_diffsym_tail(ts, SetExprV::Diff(Box::new(SetExprV::Name(a)), Box::new(SetExprV::Name(b))), 5) == Ok::<(SetExprV, int), Seq<char>>((SetExprV::SymDiff(Box::new(SetExprV::Diff(Box::new(SetExprV::Name(a)), Box::new(SetExprV::Name(b)))), Box::new(SetExprV::Name(c))), 7)));
    assert(sp_diffsym_tail(ts, SetExprV::Name(a), 3) == Ok::<(SetExprV, int), Seq<char>>((SetExprV::SymDiff(Box::new(SetExprV::Diff(Box::new(SetExprV::Name(a)), Box::new(SetExprV::Name(b)))), Box::new(SetExprV::Name(c))), 7)));
    assert(sp_diffsym(ts, 2) == Ok::<(SetExprV, int), Seq<char>>((SetExprV::SymDiff(Box::new(SetExprV::Diff(Box::new(SetExprV::Name(a)), Box::new(SetExprV::Name(b)))), Box::new(SetExprV::Name(c))), 7)));
    assert(sp_union_tail(ts, SetExprV::SymDiff(Box::new(SetExprV::Diff(Box::new(SetExprV::Name(a)), Box::new(SetExprV::Name(b)))), Box::new(SetExprV::Name(c))), 7) == Ok::<(SetExprV, int), Seq<char>>((SetExprV::SymDiff(Box::new(SetExprV::Diff(Box::new(SetExprV::Name(a)), Box::new(SetExprV::Name(b)))), Box::new(SetExprV::Name(c))), 7)));
    assert(sp_union(ts, 2) == Ok::<(SetExprV, int), Seq<char>>((SetExprV::SymDiff(Box::new(SetExprV::Diff(Box::new(SetExprV::Name(a)), Box::new(SetExprV::Name(b)))), Box::new(SetExprV::Name(c))), 7)));
    assert(sp_set_expr(ts, 2) == Ok::<(SetExprV, int), Seq<char>>((SetExprV::SymDiff(Box::new(SetExprV::Diff(Box::new(SetExprV::Name(a)), Box::new(SetExprV::Name(b)))), Box::new(SetExprV::Name(c))), 7)));
}

proof fn lemma_grouping_intersection_binds_tighter_than_union(n: Seq<char>, a: Seq<char>, b: Seq<char>, c: Seq<char>)
    ensures
        sp_statement(
            seq![
                TokV::Ident(n),
                TokV::Eq,
                TokV::Ident(a),
                TokV::Union,
                TokV::Ident(b),
                TokV::Intersect,
                TokV::Ident(c),
            ],
        ) == Ok::<StmtV, Seq<char>>(StmtV::DefineSet(n, SetExprV::Union(Box::new(SetExprV::Name(a)), Box::new(SetExprV::Intersect(Box::new(SetExprV::Name(b)), Box::new(SetExprV::Name(c))))))),
{
    let ts = seq![
        TokV::Ident(n),
        TokV::Eq,
        TokV::Ident(a),
        TokV::Union,
        TokV::Ident(b),
        TokV::Intersect,
        TokV::Ident(c),
    ];
    assert(sp_primary(ts, 2) == Ok::<(SetExprV, int), Seq<char>>((SetExprV::Name(a), 3)));
    assert(sp_intersect_tail(ts, SetExprV::Name(a), 3) == Ok::<(SetExprV, int), Seq<char>>((SetExprV::Name(a), 3)));
    assert(sp_intersect(ts, 2) == Ok::<(SetExprV, int), Seq<char>>((SetExprV::Name(a), 3)));
    assert(sp_diffsym_tail(ts, SetExprV::Name(a), 3) == Ok::<(SetExprV, int), Seq<char>>((SetExprV::Name(a), 3)));
    assert(sp_diffsym(ts, 2) == Ok::<(SetExprV, int), Seq<char>>((SetExprV::Name(a), 3)));
    assert(sp_primary(ts, 4) == Ok::<(SetExprV, int), Seq<char>>((SetExprV::Name(b), 5)));
    assert(sp_primary(ts, 6) == Ok::<(SetExprV, int), Seq<char>>((SetExprV::Name(c), 7)));
    assert(sp_intersect_tail(ts, SetExprV::Intersect(Box::new(SetExprV::Name(b)), Box::new(SetExprV::Name(c))), 7) == Ok::<(SetExprV, int), Seq<char>>((SetExprV::Intersect(Box::new(SetExprV::Name(b)), Box::new(SetExprV::Name(c))), 7)));
    assert(sp_intersect_tail(ts, SetExprV::Name(b), 5) == Ok::<(SetExprV, int), Seq<char>>((SetExprV::Intersect(Box::new(SetExprV::Name(b)), Box::new(SetExprV::Name(c))), 7)));
    assert(sp_intersect(ts, 4) == Ok::<(SetExprV, int), Seq<char>>((SetExprV::Intersect(Box::new(SetExprV::Name(b)), Box::new(SetExprV::Name(c))), 7)));
    assert(sp_diffsym_tail(ts, SetExprV::Intersect(Box::new(SetExprV::Name(b)), Box::new(SetExprV::Name(c))), 7) == Ok::<(SetExprV, int), Seq<char>>((SetExprV::Intersect(Box::new(SetExprV::Name(b)), Box::new(SetExprV::Name(c))), 7)));
    assert(sp_diffsym(ts, 4) == Ok::<(SetExprV, int), Seq<char>>((SetExprV::Intersect(Box::new(SetExprV::Name(b)), Box::new(SetExprV::Name(c))), 7)));
    assert(sp_union_tail(ts, SetExprV::Union(Box::new(SetExprV::Name(a)), Box::new(SetExprV::Intersect(Box::new(SetExprV::Name(b)), Box::new(SetExprV::Name(c))))), 7) == Ok::<(SetExprV, int), Seq<char>>((SetExprV::Union(Box::new(SetExprV::Name(a)), Box::new(SetExprV::Intersect(Box::new(SetExprV::Name(b)), Box::new(SetExprV::Name(c))))), 7)));
    assert(sp_union_tail(ts, SetExprV::Name(a), 3) == Ok::<(SetExprV, int), Seq<char>>((SetExprV::Union(Box::new(SetExprV::Name(a)), Box::new(SetExprV::Intersect(Box::new(SetExprV::Name(b)), Box::new(SetExprV::Name(c))))), 7)));
    assert(sp_union(ts, 2) == Ok::<(SetExprV, int), Seq<char>>((SetExprV::Union(Box::new(SetExprV::Name(a)), Box::new(SetExprV::Intersect(Box::new(SetExprV::Name(b)), Box::new(SetExprV::Name(c))))), 7)));
    assert(sp_set_expr(ts, 2) == Ok::<(SetExprV, int), Seq<char>>((SetExprV::Union(Box::new(SetExprV::Name(a)), Box::new(SetExprV::Intersect(Box::new(SetExprV::Name(b)), Box::new(SetExprV::Name(c))))), 7)));
}

proof fn lemma_grouping_intersection_binds_tighter_than_difference(n: Seq<char>, a: Seq<char>, b: Seq<char>, c: Seq<char>)
    ensures
        sp_statement(
            seq![
                TokV::Ident(n),
                TokV::Eq,
                TokV::Ident(a),
                TokV::Intersect,
                TokV::Ident(b),
                TokV::Diff,
                TokV::Ident(c),
            ],
        ) == Ok::<StmtV, Seq<char>>(StmtV::DefineSet(n, SetExprV::Diff(Box::new(SetExprV::Intersect(Box::new(SetExprV::Name(a)), Box::new(SetExprV::Name(b)))), Box::new(SetExprV::Name(c))))),
{
    let ts = seq![
        TokV::Ident(n),
        TokV::Eq,
        TokV::Ident(a),
        TokV::Intersect,
        TokV::Ident(b),
        TokV::Diff,
        TokV::Ident(c),
    ];
    assert(sp_primary(ts, 2) == Ok::<(SetExprV, int), Seq<char>>((SetExprV::Name(a), 3)));
    assert(sp_primary(ts, 4) == Ok::<(SetExprV, int), Seq<char>>((SetExprV::Name(b), 5)));
    assert(sp_intersect_tail(ts, SetExprV::Intersect(Box::new(SetExprV::Name(a)), Box::new(SetExprV::Name(b))), 5) == Ok::<(SetExprV, int), Seq<char>>((SetExprV::Intersect(Box::new(SetExprV::Name(a)), Box::new(SetExprV::Name(b))), 5)));
    assert(sp_intersect_tail(ts, SetExprV::Name(a), 3) == Ok::<(SetExprV, int), Seq<char>>((SetExprV::Intersect(Box::new(SetExprV::Name(a)), Box::new(SetExprV::Name(b))), 5)));
    assert(sp_intersect(ts, 2) == Ok::<(SetExprV, int), Seq<char>>((SetExprV::Intersect(Box::new(SetExprV::Name(a)), Box::new(SetExprV::Name(b))), 5)));
    assert(sp_primary(ts, 6) == Ok::<(SetExprV, int), Seq<char>>((SetExprV::Name(c), 7)));
    assert(sp_intersect_tail(ts, SetExprV::Name(c), 7) == Ok::<(SetExprV, int), Seq<char>>((SetExprV::Name(c), 7)));
    assert(sp_intersect(ts, 6) == Ok::<(SetExprV, int), Seq<char>>((SetExprV::Name(c), 7)));
    assert(sp_diffsym_tail(ts, SetExprV::Diff(Box::new(SetExprV::Intersect(Box::new(SetExprV::Name(a)), Box::new(SetExprV::Name(b)))), Box::new(SetExprV::Name(c))), 7) == Ok::<(SetExprV, int), Seq<char>>((SetExprV::Diff(Box::new(SetExprV::Intersect(Box::new(SetExprV::Name(a)), Box::new(SetExprV::Name(b)))), Box::new(SetExprV::Name(c))), 7)));
    assert(sp_diffsym_tail(ts, SetExprV::Intersect(Box::new(SetExprV::Name(a)), Box::new(SetExprV::Name(b))), 5) == Ok::<(SetExprV, int), Seq<char>>((SetExprV::Diff(Box::new(SetExprV::Intersect(Box::new(SetExprV::Name(a)), Box::new(SetExprV::Name(b)))), Box::new(SetExprV::Name(c))), 7)));
    assert(sp_diffsym(ts, 2) == Ok::<(SetExprV, int), Seq<char>>((SetExprV::Diff(Box::new(SetExprV::Intersect(Box::new(SetExprV::Name(a)), Box::new(SetExprV::Name(b)))), Box::new(SetExprV::Name(c))), 7)));
    assert(sp_union_tail(ts, SetExprV::Diff(Box::new(SetExprV::Intersect(Box::new(SetExprV::Name(a)), Box::new(SetExprV::Name(b)))), Box::new(SetExprV::Name(c))), 7) == Ok::<(SetExprV, int), Seq<char>>((SetExprV::Diff(Box::new(SetExprV::Intersect(Box::new(SetExprV::Name(a)), Box::new(SetExprV::Name(b)))), Box::new(SetExprV::Name(c))), 7)));
    assert(sp_union(ts, 2) == Ok::<(SetExprV, int), Seq<char>>((SetExprV::Diff(Box::new(SetExprV::Intersect(Box::new(SetExprV::Name(a)), Box::new(SetExprV::Name(b)))), Box::new(SetExprV::Name(c))), 7)));
    assert(sp_set_expr(ts, 2) == Ok::<(SetExprV, int), Seq<char>>((SetExprV::Diff(Box::new(SetExprV::Intersect(Box::new(SetExprV::Name(a)), Box::new(SetExprV::Name(b)))), Box::new(SetExprV::Name(c))), 7)));
}

proof fn lemma_grouping_difference_binds_tighter_than_union(n: Seq<char>, a: Seq<char>, b: Seq<char>, c: Seq<char>)
    ensures
        sp_statement(
            seq![
                TokV::Ident(n),
                TokV::Eq,
                TokV::Ident(a),
                TokV::Diff,
                TokV::Ident(b),
                TokV::Union,
                TokV::Ident(c),
            ],
        ) == Ok::<StmtV, Seq<char>>(StmtV::DefineSet(n, SetExprV::Union(Box::new(SetExprV::Diff(Box::new(SetExprV::Name(a)), Box::new(SetExprV::Name(b)))), Box::new(SetExprV::Name(c))))),
{
    let ts = seq![
        TokV::Ident(n),
        TokV::Eq,
        TokV::Ident(a),
        TokV::Diff,
        TokV::Ident(b),
        TokV::Union,
        TokV::Ident(c),
    ];
    assert(sp_primary(ts, 2) == Ok::<(SetExprV, int), Seq<char>>((SetExprV::Name(a), 3)));
    assert(sp_intersect_tail(ts, SetExprV::Name(a), 3) == Ok::<(SetExprV, int), Seq<char>>((SetExprV::Name(a), 3)));
    assert(sp_intersect(ts, 2) == Ok::<(SetExprV, int), Seq<char>>((SetExprV::Name(a), 3)));
    assert(sp_primary(ts, 4) == Ok::<(SetExprV, int), Seq<char>>((SetExprV::Name(b), 5)));
    assert(sp_intersect_tail(ts, SetExprV::Name(b), 5) == Ok::<(SetExprV, int), Seq<char>>((SetExprV::Name(b), 5)));
    assert(sp_intersect(ts, 4) == Ok::<(SetExprV, int), Seq<char>>((SetExprV::Name(b), 5)));
    assert(sp_diffsym_tail(ts, SetExprV::Diff(Box::new(SetExprV::Name(a)), Box::new(SetExprV::Name(b))), 5) == Ok::<(SetExprV, int), Seq<char>>((SetExprV::Diff(Box::new(SetExprV::Name(a)), Box::new(SetExprV::Name(b))), 5)));
    assert(sp_diffsym_tail(ts, SetExprV::Name(a), 3) == Ok::<(SetExprV, int), Seq<char>>((SetExprV::Diff(Box::new(SetExprV::Name(a)), Box::new(SetExprV::Name(b))), 5)));
    assert(sp_diffsym(ts, 2) == Ok::<(SetExprV, int), Seq<char>>((SetExprV::Diff(Box::new(SetExprV::Name(a)), Box::new(SetExprV::Name(b))), 5)));
    assert(sp_primary(ts, 6) == Ok::<(SetExprV, int), Seq<char>>((SetExprV::Name(c), 7)));
    assert(sp_intersect_tail(ts, SetExprV::Name(c), 7) == Ok::<(SetExprV, int), Seq<char>>((SetExprV::Name(c), 7)));
    assert(sp_intersect(ts, 6) == Ok::<(SetExprV, int), Seq<char>>((SetExprV::Name(c), 7)));
    assert(sp_diffsym_tail(ts, SetExprV::Name(c), 7) == Ok::<(SetExprV, int), Seq<char>>((SetExprV::Name(c), 7)));
    assert(sp_diffsym(ts, 6) == Ok::<(SetExprV, int), Seq<char>>((SetExprV::Name(c), 7)));
    assert(sp_union_tail(ts, SetExprV::Union(Box::new(SetExprV::Diff(Box::new(SetExprV::Name(a)), Box::new(SetExprV::Name(b)))), Box::new(SetExprV::Name(c))), 7) == Ok::<(SetExprV, int), Seq<char>>((SetExprV::Union(Box::new(SetExprV::Diff(Box::new(SetExprV::Name(a)), Box::new(SetExprV::Name(b)))), Box::new(SetExprV::Name(c))), 7)));
    assert(sp_union_tail(ts, SetExprV::Diff(Box::new(SetExprV::Name(a)), Box::new(SetExprV::Name(b))), 5) == Ok::<(SetExprV, int), Seq<char>>((SetExprV::Union(Box::new(SetExprV::Diff(Box::new(SetExprV::Name(a)), Box::new(SetExprV::Name(b)))), Box::new(SetExprV::Name(c))), 7)));
    assert(sp_union(ts, 2) == Ok::<(SetExprV, int), Seq<char>>((SetExprV::Union(Box::new(SetExprV::Diff(Box::new(SetExprV::Name(a)), Box::new(SetExprV::Name(b)))), Box::new(SetExprV::Name(c))), 7)));
    assert(sp_set_expr(ts, 2) == Ok::<(SetExprV, int), Seq<char>>((SetExprV::Union(Box::new(SetExprV::Diff(Box::new(SetExprV::Name(a)), Box::new(SetExprV::Name(b)))), Box::new(SetExprV::Name(c))), 7)));
}


/// The operator characters and their synonyms, wherever they stand in a
/// text: `-`, a backslash and `∖` each give the difference token, `^` and `△` the
/// symmetric difference, `∪` and a lone `|` the union, `∩` and a lone `&`
/// the intersection, and `⊆` and `<=` the subset test; the text after the
/// operator is read on as before.
pub proof fn law_operator_characters(cs: Seq<char>, i: int)
    requires
        0 <= i < cs.len(),
    ensures
        cs[i] == '-' ==> lex_from(cs, i) == prepend(TokV::Diff, lex_from(cs, i + 1)),
        cs[i] == '\\' ==> lex_from(cs, i) == prepend(TokV::Diff, lex_from(cs, i + 1)),
        cs[i] == '∖' ==> lex_from(cs, i) == prepend(TokV::Diff, lex_from(cs, i + 1)),
        cs[i] == '^' ==> lex_from(cs, i) == prepend(TokV::SymDiff, lex_from(cs, i + 1)),
        cs[i] == '△' ==> lex_from(cs, i) == prepend(TokV::SymDiff, lex_from(cs, i + 1)),
        cs[i] == '∪' ==> lex_from(cs, i) == prepend(TokV::Union, lex_from(cs, i + 1)),
        cs[i] == '|' && !char_at_is(cs, i + 1, '|') ==> lex_from(cs, i) == prepend(
            TokV::Union,
            lex_from(cs, i + 1),
        ),
        cs[i] == '∩' ==> lex_from(cs, i) == prepend(TokV::Intersect, lex_from(cs, i + 1)),
        cs[i] == '&' && !char_at_is(cs, i + 1, '&') ==> lex_from(cs, i) == prepend(
            TokV::Intersect,
            lex_from(cs, i + 1),
        ),
        cs[i] == '⊆' ==> lex_from(cs, i) == prepend(TokV::Subset, lex_from(cs, i + 1)),
        cs[i] == '<' && char_at_is(cs, i + 1, '=') ==> lex_from(cs, i) == prepend(
            TokV::Subset,
            lex_from(cs, i + 2),
        ),
{
}

} // verus!
