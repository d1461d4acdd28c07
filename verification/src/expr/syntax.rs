//! Tokens and syntax trees of set expressions, with their mathematical
//! views (names as character sequences, lists as sequences).
use vstd::prelude::*;

verus! {

#[derive(Debug)]
pub enum Tok {
    Ident(String),
    LParen,
    RParen,
    LBrace,
    RBrace,
    Comma,
    Eq,
    Ne,
    Union,
    Intersect,
    Diff,
    SymDiff,
    And,
    Or,
    Not,
    In,
    NotIn,
    Subset,
    ForAll,
    Exists,
    SuchThat,
    EmptySet,
}

pub enum TokV {
    Ident(Seq<char>),
    LParen,
    RParen,
    LBrace,
    RBrace,
    Comma,
    Eq,
    Ne,
    Union,
    Intersect,
    Diff,
    SymDiff,
    And,
    Or,
    Not,
    In,
    NotIn,
    Subset,
    ForAll,
    Exists,
    SuchThat,
    EmptySet,
}

impl View for Tok {
    type V = TokV;

    open spec fn view(&self) -> TokV {
        match self {
            Tok::Ident(s) => TokV::Ident(s@),
            Tok::LParen => TokV::LParen,
            Tok::RParen => TokV::RParen,
            Tok::LBrace => TokV::LBrace,
            Tok::RBrace => TokV::RBrace,
            Tok::Comma => TokV::Comma,
            Tok::Eq => TokV::Eq,
            Tok::Ne => TokV::Ne,
            Tok::Union => TokV::Union,
            Tok::Intersect => TokV::Intersect,
            Tok::Diff => TokV::Diff,
            Tok::SymDiff => TokV::SymDiff,
            Tok::And => TokV::And,
            Tok::Or => TokV::Or,
            Tok::Not => TokV::Not,
            Tok::In => TokV::In,
            Tok::NotIn => TokV::NotIn,
            Tok::Subset => TokV::Subset,
            Tok::ForAll => TokV::ForAll,
            Tok::Exists => TokV::Exists,
            Tok::SuchThat => TokV::SuchThat,
            Tok::EmptySet => TokV::EmptySet,
        }
    }
}

/// The views of a list of tokens.
pub open spec fn toks_view(ts: Seq<Tok>) -> Seq<TokV> {
    ts.map_values(|t: Tok| t@)
}

#[derive(Debug)]
pub enum SetExpr {
    Name(String),
    GraphVertices(String),
    GraphEdges(String),
    Empty,
    Union(Box<SetExpr>, Box<SetExpr>),
    Intersect(Box<SetExpr>, Box<SetExpr>),
    Diff(Box<SetExpr>, Box<SetExpr>),
    SymDiff(Box<SetExpr>, Box<SetExpr>),
    Comprehension { output: Output, quals: Vec<Qual> },
}

#[derive(Debug)]
pub enum Output {
    Var(String),
    Pair(String, String),
}

#[derive(Debug)]
pub enum Qual {
    Binder(String, SetExpr),
    Guard(BoolExpr),
}

#[derive(Debug)]
pub enum Term {
    Var(String),
    Pair(String, String),
}

#[derive(Debug)]
pub enum BoolExpr {
    Eq(Term, Term),
    Ne(Term, Term),
    MemberOf(Term, SetExpr),
    NotMemberOf(Term, SetExpr),
    Subset(SetExpr, SetExpr),
    And(Box<BoolExpr>, Box<BoolExpr>),
    Or(Box<BoolExpr>, Box<BoolExpr>),
    Not(Box<BoolExpr>),
    ForAll(String, SetExpr, Box<BoolExpr>),
    Exists(String, SetExpr, Box<BoolExpr>),
}

#[derive(Debug)]
pub enum Stmt {
    DefineSet(String, SetExpr),
    DefineGraph(String, SetExpr, SetExpr),
}

pub enum SetExprV {
    Name(Seq<char>),
    GraphVertices(Seq<char>),
    GraphEdges(Seq<char>),
    Empty,
    Union(Box<SetExprV>, Box<SetExprV>),
    Intersect(Box<SetExprV>, Box<SetExprV>),
    Diff(Box<SetExprV>, Box<SetExprV>),
    SymDiff(Box<SetExprV>, Box<SetExprV>),
    Comprehension(OutputV, Seq<QualV>),
}

pub enum OutputV {
    Var(Seq<char>),
    Pair(Seq<char>, Seq<char>),
}

pub enum QualV {
    Binder(Seq<char>, SetExprV),
    Guard(BoolExprV),
}

pub enum TermV {
    Var(Seq<char>),
    Pair(Seq<char>, Seq<char>),
}

pub enum BoolExprV {
    Eq(TermV, TermV),
    Ne(TermV, TermV),
    MemberOf(TermV, SetExprV),
    NotMemberOf(TermV, SetExprV),
    Subset(SetExprV, SetExprV),
    And(Box<BoolExprV>, Box<BoolExprV>),
    Or(Box<BoolExprV>, Box<BoolExprV>),
    Not(Box<BoolExprV>),
    ForAll(Seq<char>, SetExprV, Box<BoolExprV>),
    Exists(Seq<char>, SetExprV, Box<BoolExprV>),
}

pub enum StmtV {
    DefineSet(Seq<char>, SetExprV),
    DefineGraph(Seq<char>, SetExprV, SetExprV),
}

impl View for Output {
    type V = OutputV;

    open spec fn view(&self) -> OutputV {
        match self {
            Output::Var(a) => OutputV::Var(a@),
            Output::Pair(a, b) => OutputV::Pair(a@, b@),
        }
    }
}

impl View for Term {
    type V = TermV;

    open spec fn view(&self) -> TermV {
        match self {
            Term::Var(a) => TermV::Var(a@),
            Term::Pair(a, b) => TermV::Pair(a@, b@),
        }
    }
}

pub open spec fn set_expr_view(e: SetExpr) -> SetExprV
    decreases e,
{
    match e {
        SetExpr::Name(n) => SetExprV::Name(n@),
        SetExpr::GraphVertices(g) => SetExprV::GraphVertices(g@),
        SetExpr::GraphEdges(g) => SetExprV::GraphEdges(g@),
        SetExpr::Empty => SetExprV::Empty,
        SetExpr::Union(a, b) => SetExprV::Union(
            Box::new(set_expr_view(*a)),
            Box::new(set_expr_view(*b)),
        ),
        SetExpr::Intersect(a, b) => SetExprV::Intersect(
            Box::new(set_expr_view(*a)),
            Box::new(set_expr_view(*b)),
        ),
        SetExpr::Diff(a, b) => SetExprV::Diff(
            Box::new(set_expr_view(*a)),
            Box::new(set_expr_view(*b)),
        ),
        SetExpr::SymDiff(a, b) => SetExprV::SymDiff(
            Box::new(set_expr_view(*a)),
            Box::new(set_expr_view(*b)),
        ),
        SetExpr::Comprehension { output, quals } => SetExprV::Comprehension(
            output@,
            Seq::new(
                quals@.len(),
                |i: int|
                    if 0 <= i < quals@.len() {
                        proof {
                            assert(decreases_to!(quals => quals@));
                            assert(decreases_to!(quals@ => quals@[i]));
                        }
                        qual_view(quals@[i])
                    } else {
                        // Outside the list: never looked at.
                        QualV::Guard(
                            BoolExprV::Not(
                                Box::new(
                                    BoolExprV::Eq(TermV::Var(Seq::empty()), TermV::Var(Seq::empty())),
                                ),
                            ),
                        )
                    },
            ),
        ),
    }
}

pub open spec fn qual_view(q: Qual) -> QualV
    decreases q,
{
    match q {
        Qual::Binder(v, d) => QualV::Binder(v@, set_expr_view(d)),
        Qual::Guard(b) => QualV::Guard(bool_expr_view(b)),
    }
}

pub open spec fn bool_expr_view(b: BoolExpr) -> BoolExprV
    decreases b,
{
    match b {
        BoolExpr::Eq(x, y) => BoolExprV::Eq(x@, y@),
        BoolExpr::Ne(x, y) => BoolExprV::Ne(x@, y@),
        BoolExpr::MemberOf(t, s) => BoolExprV::MemberOf(t@, set_expr_view(s)),
        BoolExpr::NotMemberOf(t, s) => BoolExprV::NotMemberOf(t@, set_expr_view(s)),
        BoolExpr::Subset(x, y) => BoolExprV::Subset(set_expr_view(x), set_expr_view(y)),
        BoolExpr::And(x, y) => BoolExprV::And(
            Box::new(bool_expr_view(*x)),
            Box::new(bool_expr_view(*y)),
        ),
        BoolExpr::Or(x, y) => BoolExprV::Or(
            Box::new(bool_expr_view(*x)),
            Box::new(bool_expr_view(*y)),
        ),
        BoolExpr::Not(x) => BoolExprV::Not(Box::new(bool_expr_view(*x))),
        BoolExpr::ForAll(v, d, body) => BoolExprV::ForAll(
            v@,
            set_expr_view(d),
            Box::new(bool_expr_view(*body)),
        ),
        BoolExpr::Exists(v, d, body) => BoolExprV::Exists(
            v@,
            set_expr_view(d),
            Box::new(bool_expr_view(*body)),
        ),
    }
}

impl View for SetExpr {
    type V = SetExprV;

    open spec fn view(&self) -> SetExprV {
        set_expr_view(*self)
    }
}

impl View for Qual {
    type V = QualV;

    open spec fn view(&self) -> QualV {
        qual_view(*self)
    }
}

impl View for BoolExpr {
    type V = BoolExprV;

    open spec fn view(&self) -> BoolExprV {
        bool_expr_view(*self)
    }
}

impl View for Stmt {
    type V = StmtV;

    open spec fn view(&self) -> StmtV {
        match self {
            Stmt::DefineSet(n, e) => StmtV::DefineSet(n@, e@),
            Stmt::DefineGraph(n, v, e) => StmtV::DefineGraph(n@, v@, e@),
        }
    }
}

/// The views of a list of qualifiers.
pub open spec fn quals_view(qs: Seq<Qual>) -> Seq<QualV> {
    Seq::new(qs.len(), |i: int| qs[i]@)
}

pub proof fn lemma_comprehension_view(output: Output, quals: Vec<Qual>)
    ensures
        (SetExpr::Comprehension { output, quals })@ == SetExprV::Comprehension(
            output@,
            quals_view(quals@),
        ),
{
    let e = SetExpr::Comprehension { output, quals };
    match e@ {
        SetExprV::Comprehension(o, qs) => {
            assert(qs =~= quals_view(quals@));
        },
        _ => {},
    }
}

} // verus!
