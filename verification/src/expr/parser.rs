//! Recursive-descent parsing of statements. Set operators bind, from
//! loosest to tightest: union, then difference and symmetric difference,
//! then intersection; conditions: `or`, then `and`, then `not`, then
//! quantifiers and atoms.
use vstd::prelude::*;
use vstd::string::*;
use crate::expr::lexer::{tokenize, tokenize_spec};
use crate::order::str_eq;
use crate::expr::syntax::{
    toks_view, BoolExpr, BoolExprV, Output, OutputV, Qual, QualV, SetExpr, SetExprV, Stmt, StmtV,
    Term, TermV, Tok, TokV, lemma_comprehension_view,
};

verus! {

/// A parse of something ending just before position `.1`, or the message
/// with which it is refused.
pub type Parsed<T> = Result<(T, int), Seq<char>>;

pub open spec fn is_at(ts: Seq<TokV>, p: int, t: TokV) -> bool {
    0 <= p < ts.len() && ts[p] == t
}

pub open spec fn ident_at(ts: Seq<TokV>, p: int) -> bool {
    0 <= p < ts.len() && ts[p] is Ident
}

pub open spec fn ident_name(ts: Seq<TokV>, p: int) -> Seq<char> {
    ts[p]->Ident_0
}

/// `q` lies after `p` and within the tokens.
pub open spec fn moved(ts: Seq<TokV>, p: int, q: int) -> bool {
    p < q <= ts.len()
}

/// The text of a string as its `Debug` form shows it: in double quotes,
/// with the characters that `Debug` escapes escaped.
pub uninterp spec fn debug_quoted(s: Seq<char>) -> Seq<char>;

/// Formats a string with `Debug` (`{:?}`); the result is named
/// `debug_quoted`.
#[verifier::external_body]
fn quoted(s: &str) -> (r: String)
    ensures
        r@ == debug_quoted(s@),
{
    format!("{:?}", s)
}

/// How a token is shown in error messages: its `Debug` form.
pub open spec fn tok_text_spec(t: TokV) -> Seq<char> {
    match t {
        TokV::Ident(s) => "Ident("@ + debug_quoted(s) + ")"@,
        TokV::LParen => "LParen"@,
        TokV::RParen => "RParen"@,
        TokV::LBrace => "LBrace"@,
        TokV::RBrace => "RBrace"@,
        TokV::Comma => "Comma"@,
        TokV::Eq => "Eq"@,
        TokV::Ne => "Ne"@,
        TokV::Union => "Union"@,
        TokV::Intersect => "Intersect"@,
        TokV::Diff => "Diff"@,
        TokV::SymDiff => "SymDiff"@,
        TokV::And => "And"@,
        TokV::Or => "Or"@,
        TokV::Not => "Not"@,
        TokV::In => "In"@,
        TokV::NotIn => "NotIn"@,
        TokV::Subset => "Subset"@,
        TokV::ForAll => "ForAll"@,
        TokV::Exists => "Exists"@,
        TokV::SuchThat => "SuchThat"@,
        TokV::EmptySet => "EmptySet"@,
    }
}

/// How the token at position `p` is shown in error messages: `None` past
/// the end.
pub open spec fn shown_at(ts: Seq<TokV>, p: int) -> Seq<char> {
    if 0 <= p < ts.len() {
        "Some("@ + tok_text_spec(ts[p]) + ")"@
    } else {
        "None"@
    }
}

/// The message for a token `t` missing at position `p`.
pub open spec fn expected_text(ts: Seq<TokV>, p: int, t: TokV) -> Seq<char> {
    "Erwarte "@ + tok_text_spec(t) + ", gefunden "@ + shown_at(ts, p)
}

/// The message for a name missing at position `p`.
pub open spec fn name_expected_text(ts: Seq<TokV>, p: int) -> Seq<char> {
    "Bezeichner erwartet, gefunden "@ + shown_at(ts, p)
}

pub open spec fn sp_set_expr(ts: Seq<TokV>, p: int) -> Parsed<SetExprV>
    decreases ts.len() - p, 5int,
{
    sp_union(ts, p)
}

pub open spec fn sp_union(ts: Seq<TokV>, p: int) -> Parsed<SetExprV>
    decreases ts.len() - p, 4int,
{
    match sp_diffsym(ts, p) {
        Ok((l, q)) => if moved(ts, p, q) {
            sp_union_tail(ts, l, q)
        } else {
            Err(Seq::empty())
        },
        Err(m) => Err(m),
    }
}

pub open spec fn sp_union_tail(ts: Seq<TokV>, lhs: SetExprV, p: int) -> Parsed<SetExprV>
    decreases ts.len() - p, 0int,
{
    if is_at(ts, p, TokV::Union) {
        match sp_diffsym(ts, p + 1) {
            Ok((r, q)) => if moved(ts, p, q) {
                sp_union_tail(ts, SetExprV::Union(Box::new(lhs), Box::new(r)), q)
            } else {
                Err(Seq::empty())
            },
            Err(m) => Err(m),
        }
    } else {
        Ok((lhs, p))
    }
}

pub open spec fn sp_diffsym(ts: Seq<TokV>, p: int) -> Parsed<SetExprV>
    decreases ts.len() - p, 3int,
{
    match sp_intersect(ts, p) {
        Ok((l, q)) => if moved(ts, p, q) {
            sp_diffsym_tail(ts, l, q)
        } else {
            Err(Seq::empty())
        },
        Err(m) => Err(m),
    }
}

pub open spec fn sp_diffsym_tail(ts: Seq<TokV>, lhs: SetExprV, p: int) -> Parsed<SetExprV>
    decreases ts.len() - p, 0int,
{
    if is_at(ts, p, TokV::Diff) || is_at(ts, p, TokV::SymDiff) {
        match sp_intersect(ts, p + 1) {
            Ok((r, q)) => if moved(ts, p, q) {
                sp_diffsym_tail(
                    ts,
                    if is_at(ts, p, TokV::Diff) {
                        SetExprV::Diff(Box::new(lhs), Box::new(r))
                    } else {
                        SetExprV::SymDiff(Box::new(lhs), Box::new(r))
                    },
                    q,
                )
            } else {
                Err(Seq::empty())
            },
            Err(m) => Err(m),
        }
    } else {
        Ok((lhs, p))
    }
}

pub open spec fn sp_intersect(ts: Seq<TokV>, p: int) -> Parsed<SetExprV>
    decreases ts.len() - p, 2int,
{
    match sp_primary(ts, p) {
        Ok((l, q)) => if moved(ts, p, q) {
            sp_intersect_tail(ts, l, q)
        } else {
            Err(Seq::empty())
        },
        Err(m) => Err(m),
    }
}

pub open spec fn sp_intersect_tail(ts: Seq<TokV>, lhs: SetExprV, p: int) -> Parsed<SetExprV>
    decreases ts.len() - p, 0int,
{
    if is_at(ts, p, TokV::Intersect) {
        match sp_primary(ts, p + 1) {
            Ok((r, q)) => if moved(ts, p, q) {
                sp_intersect_tail(ts, SetExprV::Intersect(Box::new(lhs), Box::new(r)), q)
            } else {
                Err(Seq::empty())
            },
            Err(m) => Err(m),
        }
    } else {
        Ok((lhs, p))
    }
}

/// An empty set, a set comprehension, a parenthesized set expression,
/// `V(G)`, `E(G)` or a set name.
pub open spec fn sp_primary(ts: Seq<TokV>, p: int) -> Parsed<SetExprV>
    decreases ts.len() - p, 1int,
{
    if is_at(ts, p, TokV::EmptySet) {
        Ok((SetExprV::Empty, p + 1))
    } else if is_at(ts, p, TokV::LBrace) {
        if is_at(ts, p + 1, TokV::RBrace) {
            Ok((SetExprV::Empty, p + 2))
        } else {
            sp_comprehension(ts, p + 1)
        }
    } else if is_at(ts, p, TokV::LParen) {
        match sp_set_expr(ts, p + 1) {
            Ok((inner, q)) => if is_at(ts, q, TokV::RParen) {
                Ok((inner, q + 1))
            } else {
                Err(expected_text(ts, q, TokV::RParen))
            },
            Err(m) => Err(m),
        }
    } else if ident_at(ts, p) {
        let name = ident_name(ts, p);
        if (name == "V"@ || name == "E"@) && is_at(ts, p + 1, TokV::LParen) {
            if !ident_at(ts, p + 2) {
                Err(name_expected_text(ts, p + 2))
            } else if !is_at(ts, p + 3, TokV::RParen) {
                Err(expected_text(ts, p + 3, TokV::RParen))
            } else {
                let g = ident_name(ts, p + 2);
                Ok(
                    (
                        if name == "V"@ {
                            SetExprV::GraphVertices(g)
                        } else {
                            SetExprV::GraphEdges(g)
                        },
                        p + 4,
                    ),
                )
            }
        } else {
            Ok((SetExprV::Name(name), p + 1))
        }
    } else {
        Err("Menge erwartet, gefunden "@ + shown_at(ts, p))
    }
}

/// `{ output : qualifier, qualifier, ... }` after the opening brace.
pub open spec fn sp_comprehension(ts: Seq<TokV>, p: int) -> Parsed<SetExprV>
    decreases ts.len() - p, 14int,
{
    match sp_output(ts, p) {
        Ok((out, q)) => if !(p <= q) {
            Err(Seq::empty())
        } else if is_at(ts, q, TokV::SuchThat) {
            sp_quals(ts, out, Seq::empty(), q + 1)
        } else {
            Err(expected_text(ts, q, TokV::SuchThat))
        },
        Err(m) => Err(m),
    }
}

pub open spec fn sp_quals(ts: Seq<TokV>, out: OutputV, acc: Seq<QualV>, p: int) -> Parsed<
    SetExprV,
>
    decreases ts.len() - p, 13int,
{
    match sp_qual(ts, p) {
        Ok((qu, q)) => {
            let acc2 = acc.push(qu);
            if is_at(ts, q, TokV::Comma) {
                if p <= q {
                    sp_quals(ts, out, acc2, q + 1)
                } else {
                    Err(Seq::empty())
                }
            } else if is_at(ts, q, TokV::RBrace) {
                Ok((SetExprV::Comprehension(out, acc2), q + 1))
            } else {
                Err(expected_text(ts, q, TokV::RBrace))
            }
        },
        Err(m) => Err(m),
    }
}

/// `(a, b)` or a single name, as the output of a comprehension or as a
/// term; after `(`, each missing part is reported in turn.
pub open spec fn sp_pair_or_name(ts: Seq<TokV>, p: int) -> Result<(Seq<char>, Option<Seq<char>>, int), Seq<char>> {
    if is_at(ts, p, TokV::LParen) {
        if !ident_at(ts, p + 1) {
            Err(name_expected_text(ts, p + 1))
        } else if !is_at(ts, p + 2, TokV::Comma) {
            Err(expected_text(ts, p + 2, TokV::Comma))
        } else if !ident_at(ts, p + 3) {
            Err(name_expected_text(ts, p + 3))
        } else if !is_at(ts, p + 4, TokV::RParen) {
            Err(expected_text(ts, p + 4, TokV::RParen))
        } else {
            Ok((ident_name(ts, p + 1), Some(ident_name(ts, p + 3)), p + 5))
        }
    } else if ident_at(ts, p) {
        Ok((ident_name(ts, p), None, p + 1))
    } else {
        Err(name_expected_text(ts, p))
    }
}

pub open spec fn sp_output(ts: Seq<TokV>, p: int) -> Parsed<OutputV> {
    match sp_pair_or_name(ts, p) {
        Ok((a, Some(b), q)) => Ok((OutputV::Pair(a, b), q)),
        Ok((a, None, q)) => Ok((OutputV::Var(a), q)),
        Err(m) => Err(m),
    }
}

/// `name in set` binds a variable; anything else is a condition.
pub open spec fn sp_qual(ts: Seq<TokV>, p: int) -> Parsed<QualV>
    decreases ts.len() - p, 12int,
{
    if ident_at(ts, p) && is_at(ts, p + 1, TokV::In) {
        match sp_set_expr(ts, p + 2) {
            Ok((dom, q)) => Ok((QualV::Binder(ident_name(ts, p), dom), q)),
            Err(m) => Err(m),
        }
    } else {
        match sp_bool_expr(ts, p) {
            Ok((b, q)) => Ok((QualV::Guard(b), q)),
            Err(m) => Err(m),
        }
    }
}

pub open spec fn sp_bool_expr(ts: Seq<TokV>, p: int) -> Parsed<BoolExprV>
    decreases ts.len() - p, 11int,
{
    sp_or(ts, p)
}

pub open spec fn sp_or(ts: Seq<TokV>, p: int) -> Parsed<BoolExprV>
    decreases ts.len() - p, 10int,
{
    match sp_and(ts, p) {
        Ok((l, q)) => if moved(ts, p, q) {
            sp_or_tail(ts, l, q)
        } else {
            Err(Seq::empty())
        },
        Err(m) => Err(m),
    }
}

pub open spec fn sp_or_tail(ts: Seq<TokV>, lhs: BoolExprV, p: int) -> Parsed<BoolExprV>
    decreases ts.len() - p, 0int,
{
    if is_at(ts, p, TokV::Or) {
        match sp_and(ts, p + 1) {
            Ok((r, q)) => if moved(ts, p, q) {
                sp_or_tail(ts, BoolExprV::Or(Box::new(lhs), Box::new(r)), q)
            } else {
                Err(Seq::empty())
            },
            Err(m) => Err(m),
        }
    } else {
        Ok((lhs, p))
    }
}

pub open spec fn sp_and(ts: Seq<TokV>, p: int) -> Parsed<BoolExprV>
    decreases ts.len() - p, 9int,
{
    match sp_not(ts, p) {
        Ok((l, q)) => if moved(ts, p, q) {
            sp_and_tail(ts, l, q)
        } else {
            Err(Seq::empty())
        },
        Err(m) => Err(m),
    }
}

pub open spec fn sp_and_tail(ts: Seq<TokV>, lhs: BoolExprV, p: int) -> Parsed<BoolExprV>
    decreases ts.len() - p, 0int,
{
    if is_at(ts, p, TokV::And) {
        match sp_not(ts, p + 1) {
            Ok((r, q)) => if moved(ts, p, q) {
                sp_and_tail(ts, BoolExprV::And(Box::new(lhs), Box::new(r)), q)
            } else {
                Err(Seq::empty())
            },
            Err(m) => Err(m),
        }
    } else {
        Ok((lhs, p))
    }
}

pub open spec fn sp_not(ts: Seq<TokV>, p: int) -> Parsed<BoolExprV>
    decreases ts.len() - p, 8int,
{
    if is_at(ts, p, TokV::Not) {
        match sp_not(ts, p + 1) {
            Ok((b, q)) => Ok((BoolExprV::Not(Box::new(b)), q)),
            Err(m) => Err(m),
        }
    } else {
        sp_quant(ts, p)
    }
}

/// `forall x in S . P` and `exists x in S . P`.
pub open spec fn sp_quant(ts: Seq<TokV>, p: int) -> Parsed<BoolExprV>
    decreases ts.len() - p, 7int,
{
    if is_at(ts, p, TokV::ForAll) || is_at(ts, p, TokV::Exists) {
        if !ident_at(ts, p + 1) {
            Err(name_expected_text(ts, p + 1))
        } else if !is_at(ts, p + 2, TokV::In) {
            Err(expected_text(ts, p + 2, TokV::In))
        } else {
            match sp_set_expr(ts, p + 3) {
                Ok((dom, q)) => if !(p <= q) {
                    Err(Seq::empty())
                } else if !is_at(ts, q, TokV::SuchThat) {
                    Err(expected_text(ts, q, TokV::SuchThat))
                } else {
                    match sp_bool_expr(ts, q + 1) {
                        Ok((body, q2)) => Ok(
                            (
                                if is_at(ts, p, TokV::ForAll) {
                                    BoolExprV::ForAll(ident_name(ts, p + 1), dom, Box::new(body))
                                } else {
                                    BoolExprV::Exists(ident_name(ts, p + 1), dom, Box::new(body))
                                },
                                q2,
                            ),
                        ),
                        Err(m) => Err(m),
                    }
                },
                Err(m) => Err(m),
            }
        }
    } else {
        sp_atom_bool(ts, p)
    }
}

/// `(a, b)` just ahead: an edge term, not a parenthesized expression.
pub open spec fn looks_like_pair(ts: Seq<TokV>, p: int) -> bool {
    is_at(ts, p, TokV::LParen) && ident_at(ts, p + 1) && is_at(ts, p + 2, TokV::Comma)
}

/// A parenthesized condition starting at `p`, if one parses there.
pub open spec fn sp_paren_bool(ts: Seq<TokV>, p: int) -> Option<(BoolExprV, int)>
    decreases ts.len() - p, 5int,
{
    if is_at(ts, p, TokV::LParen) {
        match sp_bool_expr(ts, p + 1) {
            Ok((inner, q)) => if is_at(ts, q, TokV::RParen) {
                Some((inner, q + 1))
            } else {
                None
            },
            Err(_) => None,
        }
    } else {
        None
    }
}

/// A comparison, membership or subset test, or a parenthesized condition.
pub open spec fn sp_atom_bool(ts: Seq<TokV>, p: int) -> Parsed<BoolExprV>
    decreases ts.len() - p, 6int,
{
    if looks_like_pair(ts, p) {
        match sp_term(ts, p) {
            Ok((t, q)) => if moved(ts, p, q) {
                sp_after_term(ts, t, q)
            } else {
                Err(Seq::empty())
            },
            Err(m) => Err(m),
        }
    } else if sp_paren_bool(ts, p) is Some {
        Ok(sp_paren_bool(ts, p)->Some_0)
    } else {
        match sp_set_expr(ts, p) {
            Ok((lhs, q)) => if !moved(ts, p, q) {
                Err(Seq::empty())
            } else {
                sp_after_set(ts, lhs, q)
            },
            Err(m) => Err(m),
        }
    }
}

/// What follows a set expression in a condition: `<= T`, or, where the set
/// expression is a single name, the rest of a term comparison.
pub open spec fn sp_after_set(ts: Seq<TokV>, lhs: SetExprV, p: int) -> Parsed<BoolExprV>
    decreases ts.len() - p, 6int,
{
    if is_at(ts, p, TokV::Subset) {
        match sp_set_expr(ts, p + 1) {
            Ok((rhs, q)) => Ok((BoolExprV::Subset(lhs, rhs), q)),
            Err(m) => Err(m),
        }
    } else if is_at(ts, p, TokV::In) || is_at(ts, p, TokV::NotIn) || is_at(ts, p, TokV::Eq)
        || is_at(ts, p, TokV::Ne) {
        match lhs {
            SetExprV::Name(n) => sp_after_term(ts, TermV::Var(n), p),
            _ => Err(
                "Links von 'in' / '=' / '!=' wird eine einzelne (gebundene) Variable erwartet, keine zusammengesetzte Mengenoperation."@,
            ),
        }
    } else {
        Err("Erwarte 'in' / '=' / '!=' / '<=' , gefunden "@ + shown_at(ts, p))
    }
}

pub open spec fn sp_after_term(ts: Seq<TokV>, t: TermV, p: int) -> Parsed<BoolExprV>
    decreases ts.len() - p, 0int,
{
    if is_at(ts, p, TokV::In) {
        match sp_set_expr(ts, p + 1) {
            Ok((s, q)) => Ok((BoolExprV::MemberOf(t, s), q)),
            Err(m) => Err(m),
        }
    } else if is_at(ts, p, TokV::NotIn) {
        match sp_set_expr(ts, p + 1) {
            Ok((s, q)) => Ok((BoolExprV::NotMemberOf(t, s), q)),
            Err(m) => Err(m),
        }
    } else if is_at(ts, p, TokV::Eq) {
        match sp_term(ts, p + 1) {
            Ok((t2, q)) => Ok((BoolExprV::Eq(t, t2), q)),
            Err(m) => Err(m),
        }
    } else if is_at(ts, p, TokV::Ne) {
        match sp_term(ts, p + 1) {
            Ok((t2, q)) => Ok((BoolExprV::Ne(t, t2), q)),
            Err(m) => Err(m),
        }
    } else {
        Err("Erwarte 'in' / 'notin' / '=' / '!=' nach Term, gefunden "@ + shown_at(ts, p))
    }
}

#[verifier::opaque]
pub open spec fn sp_term(ts: Seq<TokV>, p: int) -> Parsed<TermV> {
    match sp_pair_or_name(ts, p) {
        Ok((a, Some(b), q)) => Ok((TermV::Pair(a, b), q)),
        Ok((a, None, q)) => Ok((TermV::Var(a), q)),
        Err(m) => Err(m),
    }
}

/// `Name = (V, E)` tried first, when the right side opens a parenthesis.
pub open spec fn sp_graph_statement(ts: Seq<TokV>, name: Seq<char>) -> Option<
    Result<StmtV, Seq<char>>,
> {
    if is_at(ts, 2, TokV::LParen) {
        match sp_set_expr(ts, 3) {
            Ok((first, q)) => if is_at(ts, q, TokV::Comma) {
                Some(
                    match sp_set_expr(ts, q + 1) {
                        Ok((second, q2)) => if !is_at(ts, q2, TokV::RParen) {
                            Err(expected_text(ts, q2, TokV::RParen))
                        } else if q2 + 1 < ts.len() {
                            Err("Unerwartete Zeichen nach dem Graph-Ausdruck (V, E)"@)
                        } else {
                            Ok(StmtV::DefineGraph(name, first, second))
                        },
                        Err(m) => Err(m),
                    },
                )
            } else if is_at(ts, q, TokV::RParen) {
                Some(
                    if q + 1 >= ts.len() {
                        Ok(StmtV::DefineSet(name, first))
                    } else {
                        Err(paren_start_text())
                    },
                )
            } else {
                None
            },
            Err(_) => None,
        }
    } else {
        None
    }
}

/// The message for a right side that opens with a parenthesized set and
/// goes on after it.
pub open spec fn paren_start_text() -> Seq<char> {
    "Unerwartete Zeichen nach '(...)': ein Ausdruck darf nicht mit einer geklammerten Menge beginnen und danach weitere Operatoren haben — Klammer bitte nicht an den Anfang stellen."@
}

/// One statement `Name = SetExpr` or `Name = (VertexExpr, EdgeExpr)`, the
/// tokens used up entirely.
pub open spec fn sp_statement(ts: Seq<TokV>) -> Result<StmtV, Seq<char>> {
    if ts.len() == 0 {
        Err("Leere Eingabe"@)
    } else if !ident_at(ts, 0) {
        Err("Erwarte 'Name = Ausdruck' am Zeilenanfang"@)
    } else if !is_at(ts, 1, TokV::Eq) {
        Err(expected_text(ts, 1, TokV::Eq))
    } else {
        let name = ident_name(ts, 0);
        match sp_graph_statement(ts, name) {
            Some(r) => r,
            None => match sp_set_expr(ts, 2) {
                Ok((e, q)) => if q >= ts.len() {
                    Ok(StmtV::DefineSet(name, e))
                } else {
                    Err("Unerwartete Zeichen am Ende: "@ + shown_at(ts, q))
                },
                Err(m) => Err(m),
            },
        }
    }
}

/// What a text parses to: its tokens, read as one statement, or the
/// message with which it is refused.
pub open spec fn parse_statement_spec(cs: Seq<char>) -> Result<StmtV, Seq<char>> {
    match tokenize_spec(cs) {
        Ok(ts) => sp_statement(ts),
        Err(m) => Err(m),
    }
}

/// `r` is what the parse `spec` gives, ending at `end`.
pub open spec fn parsed_as<T: View>(r: Result<T, String>, spec: Parsed<T::V>, end: int) -> bool {
    match r {
        Ok(v) => spec == Ok::<(T::V, int), Seq<char>>((v@, end)),
        Err(e) => spec == Err::<(T::V, int), Seq<char>>(e@),
    }
}

fn same_tok(a: &Tok, b: &Tok) -> (r: bool)
    ensures
        r == (a@ == b@),
{
    match (a, b) {
        (Tok::Ident(x), Tok::Ident(y)) => str_eq(x.as_str(), y.as_str()),
        (Tok::LParen, Tok::LParen) => true,
        (Tok::RParen, Tok::RParen) => true,
        (Tok::LBrace, Tok::LBrace) => true,
        (Tok::RBrace, Tok::RBrace) => true,
        (Tok::Comma, Tok::Comma) => true,
        (Tok::Eq, Tok::Eq) => true,
        (Tok::Ne, Tok::Ne) => true,
        (Tok::Union, Tok::Union) => true,
        (Tok::Intersect, Tok::Intersect) => true,
        (Tok::Diff, Tok::Diff) => true,
        (Tok::SymDiff, Tok::SymDiff) => true,
        (Tok::And, Tok::And) => true,
        (Tok::Or, Tok::Or) => true,
        (Tok::Not, Tok::Not) => true,
        (Tok::In, Tok::In) => true,
        (Tok::NotIn, Tok::NotIn) => true,
        (Tok::Subset, Tok::Subset) => true,
        (Tok::ForAll, Tok::ForAll) => true,
        (Tok::Exists, Tok::Exists) => true,
        (Tok::SuchThat, Tok::SuchThat) => true,
        (Tok::EmptySet, Tok::EmptySet) => true,
        _ => false,
    }
}

fn tok_text(t: &Tok) -> (r: String)
    ensures
        r@ == tok_text_spec(t@),
{
    let name = match t {
        Tok::Ident(s) => {
            let mut r = String::from_str("Ident(");
            r.append(quoted(s.as_str()).as_str());
            r.append(")");
            return r;
        },
        Tok::LParen => "LParen",
        Tok::RParen => "RParen",
        Tok::LBrace => "LBrace",
        Tok::RBrace => "RBrace",
        Tok::Comma => "Comma",
        Tok::Eq => "Eq",
        Tok::Ne => "Ne",
        Tok::Union => "Union",
        Tok::Intersect => "Intersect",
        Tok::Diff => "Diff",
        Tok::SymDiff => "SymDiff",
        Tok::And => "And",
        Tok::Or => "Or",
        Tok::Not => "Not",
        Tok::In => "In",
        Tok::NotIn => "NotIn",
        Tok::Subset => "Subset",
        Tok::ForAll => "ForAll",
        Tok::Exists => "Exists",
        Tok::SuchThat => "SuchThat",
        Tok::EmptySet => "EmptySet",
    };
    String::from_str(name)
}

fn text2(a: &str, b: &str) -> (s: String)
    ensures
        s@ == a@ + b@,
{
    let mut s = String::from_str(a);
    s.append(b);
    s
}

struct Parser {
    toks: Vec<Tok>,
    pos: usize,
}

impl Parser {
    spec fn ts(self) -> Seq<TokV> {
        toks_view(self.toks@)
    }

    /// The parser is `old` moved on, its tokens unchanged.
    spec fn follows(self, old: Parser) -> bool {
        self.toks == old.toks && self.pos <= self.toks@.len()
    }

    fn new(toks: Vec<Tok>) -> (p: Self)
        ensures
            p.toks == toks,
            p.pos == 0,
    {
        Parser { toks, pos: 0 }
    }

    fn peek(&self) -> (r: Option<&Tok>)
        ensures
            r matches Some(t) ==> self.pos < self.toks@.len() && t@ == self.ts()[self.pos as int],
            r is None ==> self.pos >= self.toks@.len(),
    {
        if self.pos < self.toks.len() {
            Some(&self.toks[self.pos])
        } else {
            None
        }
    }

    /// How the current token is shown in error messages.
    fn peek_text(&self) -> (r: String)
        ensures
            r@ == shown_at(self.ts(), self.pos as int),
    {
        match self.peek() {
            Some(t) => {
                let mut s = String::from_str("Some(");
                s.append(tok_text(t).as_str());
                s.append(")");
                s
            },
            None => String::from_str("None"),
        }
    }

    /// Moves past the current token, if there is one.
    fn advance(&mut self)
        requires
            old(self).pos <= old(self).toks@.len(),
        ensures
            final(self).toks == old(self).toks,
            old(self).pos < old(self).toks@.len() ==> final(self).pos == old(self).pos + 1,
            old(self).pos >= old(self).toks@.len() ==> final(self).pos == old(self).pos,
    {
        if self.pos < self.toks.len() {
            self.pos = self.pos + 1;
        }
    }

    fn check(&self, t: &Tok) -> (b: bool)
        ensures
            b == is_at(self.ts(), self.pos as int, t@),
    {
        match self.peek() {
            Some(c) => same_tok(c, t),
            None => false,
        }
    }

    fn expect(&mut self, t: Tok) -> (r: Result<(), String>)
        requires
            old(self).pos <= old(self).toks@.len(),
        ensures
            final(self).follows(*old(self)),
            r is Ok <==> is_at(old(self).ts(), old(self).pos as int, t@),
            r is Ok ==> final(self).pos == old(self).pos + 1,
            r matches Err(e) ==> e@ == expected_text(old(self).ts(), old(self).pos as int, t@),
    {
        let n = self.toks.len();
        if self.check(&t) {
            assert(self.ts().len() == n);
            self.pos = self.pos + 1;
            Ok(())
        } else {
            let mut s = String::from_str("Erwarte ");
            s.append(tok_text(&t).as_str());
            s.append(", gefunden ");
            s.append(self.peek_text().as_str());
            Err(s)
        }
    }

    /// The identifier at the current position, if there is one.
    fn ident_here(&self) -> (r: Option<String>)
        ensures
            r is Some <==> ident_at(self.ts(), self.pos as int),
            r matches Some(s) ==> s@ == ident_name(self.ts(), self.pos as int),
    {
        match self.peek() {
            Some(Tok::Ident(s)) => Some(s.clone()),
            _ => None,
        }
    }

    fn expect_ident(&mut self) -> (r: Result<String, String>)
        requires
            old(self).pos <= old(self).toks@.len(),
        ensures
            final(self).follows(*old(self)),
            r is Ok <==> ident_at(old(self).ts(), old(self).pos as int),
            r matches Ok(s) ==> s@ == ident_name(old(self).ts(), old(self).pos as int)
                && final(self).pos == old(self).pos + 1,
            r matches Err(e) ==> e@ == name_expected_text(old(self).ts(), old(self).pos as int),
    {
        let found = self.ident_here();
        let shown = self.peek_text();
        self.advance();
        match found {
            Some(s) => Ok(s),
            None => Err(text2("Bezeichner erwartet, gefunden ", shown.as_str())),
        }
    }

    fn at_end(&self) -> (b: bool)
        ensures
            b == (self.pos >= self.toks@.len()),
    {
        self.pos >= self.toks.len()
    }

    fn looks_like_pair_term(&self) -> (b: bool)
        ensures
            b == looks_like_pair(self.ts(), self.pos as int),
    {
        let n = self.toks.len();
        if self.pos < n && self.pos + 1 < n && self.pos + 2 < n {
            let open = same_tok(&self.toks[self.pos], &Tok::LParen);
            let ident = match &self.toks[self.pos + 1] {
                Tok::Ident(_) => true,
                _ => false,
            };
            let comma = same_tok(&self.toks[self.pos + 2], &Tok::Comma);
            open && ident && comma
        } else {
            false
        }
    }
}


impl Parser {
    fn parse_set_expr(&mut self) -> (r: Result<SetExpr, String>)
        requires
            old(self).pos <= old(self).toks@.len(),
        ensures
            final(self).follows(*old(self)),
            parsed_as(r, sp_set_expr(old(self).ts(), old(self).pos as int), final(self).pos as int),
            r is Ok ==> final(self).pos > old(self).pos,
        decreases old(self).toks@.len() - old(self).pos, 5int,
    {
        self.parse_union()
    }

    fn parse_union(&mut self) -> (r: Result<SetExpr, String>)
        requires
            old(self).pos <= old(self).toks@.len(),
        ensures
            final(self).follows(*old(self)),
            parsed_as(r, sp_union(old(self).ts(), old(self).pos as int), final(self).pos as int),
            r is Ok ==> final(self).pos > old(self).pos,
        decreases old(self).toks@.len() - old(self).pos, 4int,
    {
        let lhs = match self.parse_diffsym() {
            Ok(v) => v,
            Err(e) => return Err(e),
        };
        self.parse_union_tail(lhs)
    }

    fn parse_union_tail(&mut self, lhs: SetExpr) -> (r: Result<SetExpr, String>)
        requires
            old(self).pos <= old(self).toks@.len(),
        ensures
            final(self).follows(*old(self)),
            parsed_as(
                r,
                sp_union_tail(old(self).ts(), lhs@, old(self).pos as int),
                final(self).pos as int,
            ),
            r is Ok ==> final(self).pos >= old(self).pos,
        decreases old(self).toks@.len() - old(self).pos, 0int,
    {
        if self.check(&Tok::Union) {
            self.advance();
            let rhs = match self.parse_diffsym() {
                Ok(v) => v,
                Err(e) => return Err(e),
            };
            self.parse_union_tail(SetExpr::Union(Box::new(lhs), Box::new(rhs)))
        } else {
            Ok(lhs)
        }
    }

    fn parse_diffsym(&mut self) -> (r: Result<SetExpr, String>)
        requires
            old(self).pos <= old(self).toks@.len(),
        ensures
            final(self).follows(*old(self)),
            parsed_as(r, sp_diffsym(old(self).ts(), old(self).pos as int), final(self).pos as int),
            r is Ok ==> final(self).pos > old(self).pos,
        decreases old(self).toks@.len() - old(self).pos, 3int,
    {
        let lhs = match self.parse_intersect() {
            Ok(v) => v,
            Err(e) => return Err(e),
        };
        self.parse_diffsym_tail(lhs)
    }

    fn parse_diffsym_tail(&mut self, lhs: SetExpr) -> (r: Result<SetExpr, String>)
        requires
            old(self).pos <= old(self).toks@.len(),
        ensures
            final(self).follows(*old(self)),
            parsed_as(
                r,
                sp_diffsym_tail(old(self).ts(), lhs@, old(self).pos as int),
                final(self).pos as int,
            ),
            r is Ok ==> final(self).pos >= old(self).pos,
        decreases old(self).toks@.len() - old(self).pos, 0int,
    {
        if self.check(&Tok::Diff) {
            self.advance();
            let rhs = match self.parse_intersect() {
                Ok(v) => v,
                Err(e) => return Err(e),
            };
            self.parse_diffsym_tail(SetExpr::Diff(Box::new(lhs), Box::new(rhs)))
        } else if self.check(&Tok::SymDiff) {
            self.advance();
            let rhs = match self.parse_intersect() {
                Ok(v) => v,
                Err(e) => return Err(e),
            };
            self.parse_diffsym_tail(SetExpr::SymDiff(Box::new(lhs), Box::new(rhs)))
        } else {
            Ok(lhs)
        }
    }

    fn parse_intersect(&mut self) -> (r: Result<SetExpr, String>)
        requires
            old(self).pos <= old(self).toks@.len(),
        ensures
            final(self).follows(*old(self)),
            parsed_as(r, sp_intersect(old(self).ts(), old(self).pos as int), final(self).pos as int),
            r is Ok ==> final(self).pos > old(self).pos,
        decreases old(self).toks@.len() - old(self).pos, 2int,
    {
        let lhs = match self.parse_primary_set() {
            Ok(v) => v,
            Err(e) => return Err(e),
        };
        self.parse_intersect_tail(lhs)
    }

    fn parse_intersect_tail(&mut self, lhs: SetExpr) -> (r: Result<SetExpr, String>)
        requires
            old(self).pos <= old(self).toks@.len(),
        ensures
            final(self).follows(*old(self)),
            parsed_as(
                r,
                sp_intersect_tail(old(self).ts(), lhs@, old(self).pos as int),
                final(self).pos as int,
            ),
            r is Ok ==> final(self).pos >= old(self).pos,
        decreases old(self).toks@.len() - old(self).pos, 0int,
    {
        if self.check(&Tok::Intersect) {
            self.advance();
            let rhs = match self.parse_primary_set() {
                Ok(v) => v,
                Err(e) => return Err(e),
            };
            self.parse_intersect_tail(SetExpr::Intersect(Box::new(lhs), Box::new(rhs)))
        } else {
            Ok(lhs)
        }
    }

    fn parse_primary_set(&mut self) -> (r: Result<SetExpr, String>)
        requires
            old(self).pos <= old(self).toks@.len(),
        ensures
            final(self).follows(*old(self)),
            parsed_as(r, sp_primary(old(self).ts(), old(self).pos as int), final(self).pos as int),
            r is Ok ==> final(self).pos > old(self).pos,
        decreases old(self).toks@.len() - old(self).pos, 1int,
    {
        if self.check(&Tok::EmptySet) {
            self.advance();
            return Ok(SetExpr::Empty);
        }
        if self.check(&Tok::LBrace) {
            self.advance();
            if self.check(&Tok::RBrace) {
                self.advance();
                return Ok(SetExpr::Empty);
            }
            return self.parse_comprehension();
        }
        if self.check(&Tok::LParen) {
            self.advance();
            let inner = match self.parse_set_expr() {
                Ok(v) => v,
                Err(e) => return Err(e),
            };
            match self.expect(Tok::RParen) {
                Ok(()) => {},
                Err(e) => return Err(e),
            }
            return Ok(inner);
        }
        match self.ident_here() {
            Some(name) => {
                self.advance();
                let is_v = str_eq(name.as_str(), "V");
                let is_e = str_eq(name.as_str(), "E");
                if (is_v || is_e) && self.check(&Tok::LParen) {
                    self.advance();
                    let g = match self.expect_ident() {
                        Ok(v) => v,
                        Err(e) => return Err(e),
                    };
                    match self.expect(Tok::RParen) {
                        Ok(()) => {},
                        Err(e) => return Err(e),
                    }
                    if is_v {
                        Ok(SetExpr::GraphVertices(g))
                    } else {
                        Ok(SetExpr::GraphEdges(g))
                    }
                } else {
                    Ok(SetExpr::Name(name))
                }
            },
            None => Err(text2("Menge erwartet, gefunden ", self.peek_text().as_str())),
        }
    }

    fn parse_comprehension(&mut self) -> (r: Result<SetExpr, String>)
        requires
            old(self).pos <= old(self).toks@.len(),
        ensures
            final(self).follows(*old(self)),
            parsed_as(
                r,
                sp_comprehension(old(self).ts(), old(self).pos as int),
                final(self).pos as int,
            ),
            r is Ok ==> final(self).pos > old(self).pos,
        decreases old(self).toks@.len() - old(self).pos, 14int,
    {
        let output = match self.parse_output() {
            Ok(v) => v,
            Err(e) => return Err(e),
        };
        match self.expect(Tok::SuchThat) {
            Ok(()) => {},
            Err(e) => return Err(e),
        }
        let quals: Vec<Qual> = Vec::new();
        proof {
            assert(quals_view_of(quals@) =~= Seq::<QualV>::empty());
        }
        self.parse_quals(output, quals)
    }

    fn parse_quals(&mut self, output: Output, quals: Vec<Qual>) -> (r: Result<SetExpr, String>)
        requires
            old(self).pos <= old(self).toks@.len(),
        ensures
            final(self).follows(*old(self)),
            parsed_as(
                r,
                sp_quals(old(self).ts(), output@, quals_view_of(quals@), old(self).pos as int),
                final(self).pos as int,
            ),
            r is Ok ==> final(self).pos > old(self).pos,
        decreases old(self).toks@.len() - old(self).pos, 13int,
    {
        let qual = match self.parse_qual() {
            Ok(v) => v,
            Err(e) => return Err(e),
        };
        let mut quals = quals;
        let ghost before = quals@;
        quals.push(qual);
        proof {
            assert(quals_view_of(quals@) =~= quals_view_of(before).push(qual@));
        }
        if self.check(&Tok::Comma) {
            self.advance();
            self.parse_quals(output, quals)
        } else {
            match self.expect(Tok::RBrace) {
                Ok(()) => {},
                Err(e) => return Err(e),
            }
            proof {
                lemma_comprehension_view(output, quals);
                assert(quals_view_of(quals@) == crate::expr::syntax::quals_view(quals@));
            }
            Ok(SetExpr::Comprehension { output, quals })
        }
    }

    fn parse_output(&mut self) -> (r: Result<Output, String>)
        requires
            old(self).pos <= old(self).toks@.len(),
        ensures
            final(self).follows(*old(self)),
            parsed_as(r, sp_output(old(self).ts(), old(self).pos as int), final(self).pos as int),
            r is Ok ==> final(self).pos > old(self).pos,
    {
        proof {
            reveal(sp_term);
        }
        if self.check(&Tok::LParen) {
            self.advance();
            let a = match self.expect_ident() {
                Ok(v) => v,
                Err(e) => return Err(e),
            };
            match self.expect(Tok::Comma) {
                Ok(()) => {},
                Err(e) => return Err(e),
            }
            let b = match self.expect_ident() {
                Ok(v) => v,
                Err(e) => return Err(e),
            };
            match self.expect(Tok::RParen) {
                Ok(()) => {},
                Err(e) => return Err(e),
            }
            Ok(Output::Pair(a, b))
        } else {
            let a = match self.expect_ident() {
                Ok(v) => v,
                Err(e) => return Err(e),
            };
            Ok(Output::Var(a))
        }
    }

    fn parse_qual(&mut self) -> (r: Result<Qual, String>)
        requires
            old(self).pos <= old(self).toks@.len(),
        ensures
            final(self).follows(*old(self)),
            parsed_as(r, sp_qual(old(self).ts(), old(self).pos as int), final(self).pos as int),
            r is Ok ==> final(self).pos > old(self).pos,
        decreases old(self).toks@.len() - old(self).pos, 12int,
    {
        match self.ident_here() {
            Some(name) => {
                let n = self.toks.len();
                if self.pos + 1 < n && same_tok(&self.toks[self.pos + 1], &Tok::In) {
                    self.advance();
                    self.advance();
                    let dom = match self.parse_set_expr() {
                        Ok(v) => v,
                        Err(e) => return Err(e),
                    };
                    return Ok(Qual::Binder(name, dom));
                }
            },
            None => {},
        }
        let b = match self.parse_bool_expr() {
            Ok(v) => v,
            Err(e) => return Err(e),
        };
        Ok(Qual::Guard(b))
    }

    fn parse_bool_expr(&mut self) -> (r: Result<BoolExpr, String>)
        requires
            old(self).pos <= old(self).toks@.len(),
        ensures
            final(self).follows(*old(self)),
            parsed_as(r, sp_bool_expr(old(self).ts(), old(self).pos as int), final(self).pos as int),
            r is Ok ==> final(self).pos > old(self).pos,
        decreases old(self).toks@.len() - old(self).pos, 11int,
    {
        self.parse_or()
    }

    fn parse_or(&mut self) -> (r: Result<BoolExpr, String>)
        requires
            old(self).pos <= old(self).toks@.len(),
        ensures
            final(self).follows(*old(self)),
            parsed_as(r, sp_or(old(self).ts(), old(self).pos as int), final(self).pos as int),
            r is Ok ==> final(self).pos > old(self).pos,
        decreases old(self).toks@.len() - old(self).pos, 10int,
    {
        let lhs = match self.parse_and() {
            Ok(v) => v,
            Err(e) => return Err(e),
        };
        self.parse_or_tail(lhs)
    }

    fn parse_or_tail(&mut self, lhs: BoolExpr) -> (r: Result<BoolExpr, String>)
        requires
            old(self).pos <= old(self).toks@.len(),
        ensures
            final(self).follows(*old(self)),
            parsed_as(
                r,
                sp_or_tail(old(self).ts(), lhs@, old(self).pos as int),
                final(self).pos as int,
            ),
            r is Ok ==> final(self).pos >= old(self).pos,
        decreases old(self).toks@.len() - old(self).pos, 0int,
    {
        if self.check(&Tok::Or) {
            self.advance();
            let rhs = match self.parse_and() {
                Ok(v) => v,
                Err(e) => return Err(e),
            };
            self.parse_or_tail(BoolExpr::Or(Box::new(lhs), Box::new(rhs)))
        } else {
            Ok(lhs)
        }
    }

    fn parse_and(&mut self) -> (r: Result<BoolExpr, String>)
        requires
            old(self).pos <= old(self).toks@.len(),
        ensures
            final(self).follows(*old(self)),
            parsed_as(r, sp_and(old(self).ts(), old(self).pos as int), final(self).pos as int),
            r is Ok ==> final(self).pos > old(self).pos,
        decreases old(self).toks@.len() - old(self).pos, 9int,
    {
        let lhs = match self.parse_not() {
            Ok(v) => v,
            Err(e) => return Err(e),
        };
        self.parse_and_tail(lhs)
    }

    fn parse_and_tail(&mut self, lhs: BoolExpr) -> (r: Result<BoolExpr, String>)
        requires
            old(self).pos <= old(self).toks@.len(),
        ensures
            final(self).follows(*old(self)),
            parsed_as(
                r,
                sp_and_tail(old(self).ts(), lhs@, old(self).pos as int),
                final(self).pos as int,
            ),
            r is Ok ==> final(self).pos >= old(self).pos,
        decreases old(self).toks@.len() - old(self).pos, 0int,
    {
        if self.check(&Tok::And) {
            self.advance();
            let rhs = match self.parse_not() {
                Ok(v) => v,
                Err(e) => return Err(e),
            };
            self.parse_and_tail(BoolExpr::And(Box::new(lhs), Box::new(rhs)))
        } else {
            Ok(lhs)
        }
    }

    fn parse_not(&mut self) -> (r: Result<BoolExpr, String>)
        requires
            old(self).pos <= old(self).toks@.len(),
        ensures
            final(self).follows(*old(self)),
            parsed_as(r, sp_not(old(self).ts(), old(self).pos as int), final(self).pos as int),
            r is Ok ==> final(self).pos > old(self).pos,
        decreases old(self).toks@.len() - old(self).pos, 8int,
    {
        if self.check(&Tok::Not) {
            self.advance();
            let inner = match self.parse_not() {
                Ok(v) => v,
                Err(e) => return Err(e),
            };
            return Ok(BoolExpr::Not(Box::new(inner)));
        }
        self.parse_quant()
    }

    fn parse_quant(&mut self) -> (r: Result<BoolExpr, String>)
        requires
            old(self).pos <= old(self).toks@.len(),
        ensures
            final(self).follows(*old(self)),
            parsed_as(r, sp_quant(old(self).ts(), old(self).pos as int), final(self).pos as int),
            r is Ok ==> final(self).pos > old(self).pos,
        decreases old(self).toks@.len() - old(self).pos, 7int,
    {
        if self.check(&Tok::ForAll) || self.check(&Tok::Exists) {
            let is_forall = self.check(&Tok::ForAll);
            self.advance();
            let var = match self.expect_ident() {
                Ok(v) => v,
                Err(e) => return Err(e),
            };
            match self.expect(Tok::In) {
                Ok(()) => {},
                Err(e) => return Err(e),
            }
            let dom = match self.parse_set_expr() {
                Ok(v) => v,
                Err(e) => return Err(e),
            };
            match self.expect(Tok::SuchThat) {
                Ok(()) => {},
                Err(e) => return Err(e),
            }
            let body = match self.parse_bool_expr() {
                Ok(v) => v,
                Err(e) => return Err(e),
            };
            return Ok(
                if is_forall {
                    BoolExpr::ForAll(var, dom, Box::new(body))
                } else {
                    BoolExpr::Exists(var, dom, Box::new(body))
                },
            );
        }
        self.parse_atom_bool()
    }

    fn parse_atom_bool(&mut self) -> (r: Result<BoolExpr, String>)
        requires
            old(self).pos <= old(self).toks@.len(),
        ensures
            final(self).follows(*old(self)),
            parsed_as(r, sp_atom_bool(old(self).ts(), old(self).pos as int), final(self).pos as int),
            r is Ok ==> final(self).pos > old(self).pos,
        decreases old(self).toks@.len() - old(self).pos, 6int,
    {
        if self.looks_like_pair_term() {
            let term = match self.parse_term() {
                Ok(v) => v,
                Err(e) => return Err(e),
            };
            return self.parse_atom_bool_after_term(term);
        }
        match self.try_paren_bool() {
            Some(inner) => return Ok(inner),
            None => {},
        }
        let lhs_set = match self.parse_set_expr() {
            Ok(v) => v,
            Err(e) => return Err(e),
        };
        self.parse_after_set(lhs_set)
    }

    /// A parenthesized condition at the current position, if one parses
    /// there; where none does, the parser stays where it was.
    fn try_paren_bool(&mut self) -> (r: Option<BoolExpr>)
        requires
            old(self).pos <= old(self).toks@.len(),
        ensures
            final(self).follows(*old(self)),
            r matches Some(b) ==> sp_paren_bool(old(self).ts(), old(self).pos as int) == Some(
                (b@, final(self).pos as int),
            ),
            r is Some ==> final(self).pos > old(self).pos,
            r is None ==> sp_paren_bool(old(self).ts(), old(self).pos as int) is None,
            r is None ==> final(self).pos == old(self).pos,
        decreases old(self).toks@.len() - old(self).pos, 5int,
    {
        if !self.check(&Tok::LParen) {
            return None;
        }
        let save = self.pos;
        self.advance();
        match self.parse_bool_expr() {
            Ok(inner) => {
                if self.check(&Tok::RParen) {
                    self.advance();
                    return Some(inner);
                }
            },
            Err(_) => {},
        }
        self.pos = save;
        None
    }

    /// `<= T` after the set expression `lhs`, or the rest of a term
    /// comparison where `lhs` is a single name.
    fn parse_after_set(&mut self, lhs: SetExpr) -> (r: Result<BoolExpr, String>)
        requires
            old(self).pos <= old(self).toks@.len(),
        ensures
            final(self).follows(*old(self)),
            parsed_as(
                r,
                sp_after_set(old(self).ts(), lhs@, old(self).pos as int),
                final(self).pos as int,
            ),
            r is Ok ==> final(self).pos > old(self).pos,
        decreases old(self).toks@.len() - old(self).pos, 6int,
    {
        if self.check(&Tok::Subset) {
            self.parse_subset_rhs(lhs)
        } else if self.check(&Tok::In) || self.check(&Tok::NotIn) || self.check(&Tok::Eq)
            || self.check(&Tok::Ne) {
            self.parse_name_comparison(lhs)
        } else {
            Err(
                text2(
                    "Erwarte 'in' / '=' / '!=' / '<=' , gefunden ",
                    self.peek_text().as_str(),
                ),
            )
        }
    }

    /// The rest of a term comparison after the set expression `lhs`, which
    /// has to be a single name.
    fn parse_name_comparison(&mut self, lhs: SetExpr) -> (r: Result<BoolExpr, String>)
        requires
            old(self).pos <= old(self).toks@.len(),
            is_at(old(self).ts(), old(self).pos as int, TokV::In) || is_at(
                old(self).ts(),
                old(self).pos as int,
                TokV::NotIn,
            ) || is_at(old(self).ts(), old(self).pos as int, TokV::Eq) || is_at(
                old(self).ts(),
                old(self).pos as int,
                TokV::Ne,
            ),
        ensures
            final(self).follows(*old(self)),
            parsed_as(
                r,
                sp_after_set(old(self).ts(), lhs@, old(self).pos as int),
                final(self).pos as int,
            ),
            r is Ok ==> final(self).pos > old(self).pos,
        decreases old(self).toks@.len() - old(self).pos, 5int,
    {
        match set_expr_to_term(lhs) {
            Ok(term) => self.parse_atom_bool_after_term(term),
            Err(e) => Err(e),
        }
    }

    /// `<= T` after the set expression `lhs`.
    fn parse_subset_rhs(&mut self, lhs: SetExpr) -> (r: Result<BoolExpr, String>)
        requires
            old(self).pos <= old(self).toks@.len(),
            is_at(old(self).ts(), old(self).pos as int, TokV::Subset),
        ensures
            final(self).follows(*old(self)),
            parsed_as(
                r,
                sp_after_set(old(self).ts(), lhs@, old(self).pos as int),
                final(self).pos as int,
            ),
            r is Ok ==> final(self).pos > old(self).pos,
        decreases old(self).toks@.len() - old(self).pos, 5int,
    {
        self.advance();
        match self.parse_set_expr() {
            Ok(rhs) => Ok(BoolExpr::Subset(lhs, rhs)),
            Err(e) => Err(e),
        }
    }

    fn parse_atom_bool_after_term(&mut self, term: Term) -> (r: Result<BoolExpr, String>)
        requires
            old(self).pos <= old(self).toks@.len(),
        ensures
            final(self).follows(*old(self)),
            parsed_as(
                r,
                sp_after_term(old(self).ts(), term@, old(self).pos as int),
                final(self).pos as int,
            ),
            r is Ok ==> final(self).pos > old(self).pos,
        decreases old(self).toks@.len() - old(self).pos, 1int,
    {
        if self.check(&Tok::In) {
            self.parse_membership(term, false)
        } else if self.check(&Tok::NotIn) {
            self.parse_membership(term, true)
        } else if self.check(&Tok::Eq) {
            self.parse_term_comparison(term, false)
        } else if self.check(&Tok::Ne) {
            self.parse_term_comparison(term, true)
        } else {
            Err(
                text2(
                    "Erwarte 'in' / 'notin' / '=' / '!=' nach Term, gefunden ",
                    self.peek_text().as_str(),
                ),
            )
        }
    }

    /// `in S` or `notin S` after a term.
    fn parse_membership(&mut self, term: Term, negated: bool) -> (r: Result<BoolExpr, String>)
        requires
            old(self).pos <= old(self).toks@.len(),
            is_at(old(self).ts(), old(self).pos as int, if negated { TokV::NotIn } else { TokV::In }),
        ensures
            final(self).follows(*old(self)),
            parsed_as(
                r,
                sp_after_term(old(self).ts(), term@, old(self).pos as int),
                final(self).pos as int,
            ),
            r is Ok ==> final(self).pos > old(self).pos,
        decreases old(self).toks@.len() - old(self).pos, 0int,
    {
        self.advance();
        match self.parse_set_expr() {
            Ok(s) => if negated {
                Ok(BoolExpr::NotMemberOf(term, s))
            } else {
                Ok(BoolExpr::MemberOf(term, s))
            },
            Err(e) => Err(e),
        }
    }

    /// `= t` or `!= t` after a term.
    fn parse_term_comparison(&mut self, term: Term, negated: bool) -> (r: Result<BoolExpr, String>)
        requires
            old(self).pos <= old(self).toks@.len(),
            is_at(old(self).ts(), old(self).pos as int, if negated { TokV::Ne } else { TokV::Eq }),
        ensures
            final(self).follows(*old(self)),
            parsed_as(
                r,
                sp_after_term(old(self).ts(), term@, old(self).pos as int),
                final(self).pos as int,
            ),
            r is Ok ==> final(self).pos > old(self).pos,
    {
        self.advance();
        match self.parse_term() {
            Ok(t2) => if negated {
                Ok(BoolExpr::Ne(term, t2))
            } else {
                Ok(BoolExpr::Eq(term, t2))
            },
            Err(e) => Err(e),
        }
    }

    fn parse_term(&mut self) -> (r: Result<Term, String>)
        requires
            old(self).pos <= old(self).toks@.len(),
        ensures
            final(self).follows(*old(self)),
            parsed_as(r, sp_term(old(self).ts(), old(self).pos as int), final(self).pos as int),
            r is Ok ==> final(self).pos > old(self).pos,
    {
        proof {
            reveal(sp_term);
        }
        if self.check(&Tok::LParen) {
            self.advance();
            let a = match self.expect_ident() {
                Ok(v) => v,
                Err(e) => return Err(e),
            };
            match self.expect(Tok::Comma) {
                Ok(()) => {},
                Err(e) => return Err(e),
            }
            let b = match self.expect_ident() {
                Ok(v) => v,
                Err(e) => return Err(e),
            };
            match self.expect(Tok::RParen) {
                Ok(()) => {},
                Err(e) => return Err(e),
            }
            Ok(Term::Pair(a, b))
        } else {
            let a = match self.expect_ident() {
                Ok(v) => v,
                Err(e) => return Err(e),
            };
            Ok(Term::Var(a))
        }
    }
}

impl Parser {
    /// `Name = (V, E)` or `Name = (S)` tried from position 2; `None` (and the
    /// parser left where it was) where the right side is to be read as a
    /// plain set expression.
    fn try_graph_statement(&mut self, name: &String) -> (r: Option<Result<Stmt, String>>)
        requires
            old(self).pos == 2,
            old(self).pos <= old(self).toks@.len(),
        ensures
            final(self).toks == old(self).toks,
            final(self).pos <= final(self).toks@.len(),
            match r {
                None => sp_graph_statement(old(self).ts(), name@) is None && final(self).pos == 2,
                Some(Ok(st)) => sp_graph_statement(old(self).ts(), name@) == Some(
                    Ok::<StmtV, Seq<char>>(st@),
                ),
                Some(Err(e)) => sp_graph_statement(old(self).ts(), name@) == Some(
                    Err::<StmtV, Seq<char>>(e@),
                ),
            },
    {
        if !self.check(&Tok::LParen) {
            return None;
        }
        let save = self.pos;
        self.advance();
        let first = match self.parse_set_expr() {
            Ok(e) => e,
            Err(_) => {
                self.pos = save;
                return None;
            },
        };
        if self.check(&Tok::Comma) {
            self.advance();
            let second = match self.parse_set_expr() {
                Ok(e) => e,
                Err(e) => return Some(Err(e)),
            };
            match self.expect(Tok::RParen) {
                Ok(()) => {},
                Err(e) => return Some(Err(e)),
            }
            if !self.at_end() {
                return Some(
                    Err(String::from_str("Unerwartete Zeichen nach dem Graph-Ausdruck (V, E)")),
                );
            }
            Some(Ok(Stmt::DefineGraph(name.clone(), first, second)))
        } else if self.check(&Tok::RParen) {
            self.advance();
            if !self.at_end() {
                return Some(
                    Err(
                        String::from_str(
                            "Unerwartete Zeichen nach '(...)': ein Ausdruck darf nicht mit einer geklammerten Menge beginnen und danach weitere Operatoren haben — Klammer bitte nicht an den Anfang stellen.",
                        ),
                    ),
                );
            }
            Some(Ok(Stmt::DefineSet(name.clone(), first)))
        } else {
            self.pos = save;
            None
        }
    }
}

/// Parses one statement: `Name = SetExpr` or `Name = (VertexExpr, EdgeExpr)`.
///
/// A right side that opens with a parenthesis is first read as a graph
/// definition; where no comma or closing parenthesis follows the first
/// expression, it is read again as a plain set expression.
pub fn parse_statement(input: &str) -> (r: Result<Stmt, String>)
    ensures
        match r {
            Ok(st) => parse_statement_spec(input@) == Ok::<StmtV, Seq<char>>(st@),
            Err(e) => parse_statement_spec(input@) == Err::<StmtV, Seq<char>>(e@),
        },
{
    let toks = match tokenize(input) {
        Ok(t) => t,
        Err(e) => return Err(e),
    };
    if toks.len() == 0 {
        return Err(String::from_str("Leere Eingabe"));
    }
    let mut p = Parser::new(toks);
    let name = match p.expect_ident() {
        Ok(n) => n,
        Err(_) => return Err(String::from_str("Erwarte 'Name = Ausdruck' am Zeilenanfang")),
    };
    match p.expect(Tok::Eq) {
        Ok(()) => {},
        Err(e) => return Err(e),
    }
    assert(p.pos == 2);
    match p.try_graph_statement(&name) {
        Some(res) => return res,
        None => {},
    }
    let expr = match p.parse_set_expr() {
        Ok(e) => e,
        Err(e) => return Err(e),
    };
    if !p.at_end() {
        return Err(text2("Unerwartete Zeichen am Ende: ", p.peek_text().as_str()));
    }
    Ok(Stmt::DefineSet(name, expr))
}

/// The views of a list of qualifiers.
pub open spec fn quals_view_of(qs: Seq<Qual>) -> Seq<QualV> {
    qs.map_values(|q: Qual| q@)
}

fn set_expr_to_term(e: SetExpr) -> (r: Result<Term, String>)
    ensures
        e@ is Name ==> (r matches Ok(t) && t@ == TermV::Var(e@->Name_0)),
        !(e@ is Name) ==> (r matches Err(m) && m@
            == "Links von 'in' / '=' / '!=' wird eine einzelne (gebundene) Variable erwartet, keine zusammengesetzte Mengenoperation."@),
{
    match e {
        SetExpr::Name(n) => Ok(Term::Var(n)),
        _ => Err(
            String::from_str(
                "Links von 'in' / '=' / '!=' wird eine einzelne (gebundene) Variable erwartet, keine zusammengesetzte Mengenoperation.",
            ),
        ),
    }
}

} // verus!
