//! Values of set expressions: a set of vertices or a set of edges.
use vstd::prelude::*;
use vstd::string::*;
use crate::graph::{Edge, EdgeView, Label, VertexId};
use crate::order::Keyed;
use crate::ordset::{ordered, OrdSet};

verus! {

#[derive(Debug)]
pub enum SetValue {
    Vertices(OrdSet<VertexId>),
    Edges(OrdSet<Edge>),
}

/// The mathematical content of a `SetValue`.
pub enum SetVal {
    Vertices(Set<Label>),
    Edges(Set<EdgeView>),
}

impl View for SetValue {
    type V = SetVal;

    open spec fn view(&self) -> SetVal {
        match self {
            SetValue::Vertices(s) => SetVal::Vertices(s@),
            SetValue::Edges(s) => SetVal::Edges(s@),
        }
    }
}

/// Name of the kind of a set, as shown to the user.
pub open spec fn kind_name(v: SetVal) -> Seq<char> {
    match v {
        SetVal::Vertices(_) => "Knotenmenge"@,
        SetVal::Edges(_) => "Kantenmenge"@,
    }
}

pub open spec fn set_len(v: SetVal) -> nat {
    match v {
        SetVal::Vertices(s) => s.len(),
        SetVal::Edges(s) => s.len(),
    }
}

/// `parts` separated by `sep`.
pub open spec fn join(parts: Seq<Seq<char>>, sep: Seq<char>) -> Seq<char>
    decreases parts.len(),
{
    if parts.len() == 0 {
        Seq::empty()
    } else if parts.len() == 1 {
        parts[0]
    } else {
        join(parts.drop_last(), sep) + sep + parts.last()
    }
}

/// How an edge is written: `(a,b)`.
pub open spec fn edge_text(e: EdgeView) -> Seq<char> {
    seq!['('] + e.0 + seq![','] + e.1 + seq![')']
}

/// The elements of a set in increasing order, each written out.
pub open spec fn item_texts(v: SetVal) -> Seq<Seq<char>> {
    match v {
        SetVal::Vertices(s) => ordered::<VertexId>(s),
        SetVal::Edges(s) => ordered::<Edge>(s).map_values(|e: EdgeView| edge_text(e)),
    }
}

/// `{a, b, c}` with the elements in increasing order.
pub open spec fn format_text(v: SetVal) -> Seq<char> {
    seq!['{'] + join(item_texts(v), seq![',', ' ']) + seq!['}']
}

proof fn lemma_join_take(parts: Seq<Seq<char>>, sep: Seq<char>, i: int)
    requires
        0 < i < parts.len(),
    ensures
        join(parts.take(i + 1), sep) == join(parts.take(i), sep) + sep + parts[i],
{
    assert(parts.take(i + 1).drop_last() =~= parts.take(i));
}

fn edge_string(e: &Edge) -> (s: String)
    ensures
        s@ == edge_text(e@),
{
    proof {
        reveal_strlit("(");
        reveal_strlit(",");
        reveal_strlit(")");
    }
    let mut s = String::from_str("(");
    s.append(e.0.as_str());
    s.append(",");
    s.append(e.1.as_str());
    s.append(")");
    proof {
        assert(s@ =~= edge_text(e@));
    }
    s
}

impl SetValue {
    pub fn kind(&self) -> (s: &'static str)
        ensures
            s@ == kind_name(self@),
    {
        match self {
            SetValue::Vertices(_) => "Knotenmenge",
            SetValue::Edges(_) => "Kantenmenge",
        }
    }

    pub fn len(&self) -> (n: usize)
        ensures
            n == set_len(self@),
    {
        match self {
            SetValue::Vertices(s) => s.len(),
            SetValue::Edges(s) => s.len(),
        }
    }

    /// The elements, in increasing order, between braces and separated by
    /// commas; edges are written `(a,b)`.
    pub fn format(&self) -> (s: String)
        ensures
            s@ == format_text(self@),
    {
        proof {
            reveal_strlit("{");
            reveal_strlit("}");
            reveal_strlit(", ");
        }
        let ghost items = item_texts(self@);
        let ghost sep = seq![',', ' '];
        let mut out = String::from_str("{");
        let n = match self {
            SetValue::Vertices(s) => s.len(),
            SetValue::Edges(s) => s.len(),
        };
        let mut i: usize = 0;
        while i < n
            invariant
                n == set_len(self@),
                items == item_texts(self@),
                items.len() == n,
                sep == seq![',', ' '],
                i <= n,
                out@ == seq!['{'] + join(items.take(i as int), sep),
            decreases n - i,
        {
            let item = match self {
                SetValue::Vertices(s) => s.get(i).duplicate(),
                SetValue::Edges(s) => edge_string(s.get(i)),
            };
            let ghost before = out@;
            if i > 0 {
                out.append(", ");
                proof {
                    reveal_strlit(", ");
                    assert(", "@ =~= sep);
                    lemma_join_take(items, sep, i as int);
                }
            }
            out.append(item.as_str());
            proof {
                assert(item@ == items[i as int]);
                if i == 0 {
                    assert(items.take(0) =~= Seq::<Seq<char>>::empty());
                    assert(join(items.take(1), sep) == items.take(1)[0]);
                    assert(out@ =~= seq!['{'] + join(items.take(i + 1), sep));
                } else {
                    assert(out@ =~= before + sep + items[i as int]);
                    assert(out@ =~= seq!['{'] + join(items.take(i + 1), sep));
                }
            }
            i = i + 1;
        }
        out.append("}");
        proof {
            assert(items.take(n as int) =~= items);
            assert(out@ =~= format_text(self@));
        }
        out
    }

    /// A copy of this value.
    pub fn duplicate(&self) -> (r: Self)
        ensures
            r@ == self@,
    {
        match self {
            SetValue::Vertices(s) => SetValue::Vertices(s.duplicate()),
            SetValue::Edges(s) => SetValue::Edges(s.duplicate()),
        }
    }
}

} // verus!
