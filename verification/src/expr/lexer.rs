//! Splitting the text of a statement into tokens. ASCII operators and words
//! and their Unicode math equivalents are accepted as synonyms.
use vstd::prelude::*;
use vstd::string::*;
use crate::order::{compare_str, Order};
use crate::graph::decimal;
use crate::expr::syntax::{toks_view, Tok, TokV};

verus! {

/// Whether `char::is_alphabetic` holds of the character.
pub uninterp spec fn is_alphabetic_char(c: char) -> bool;

/// Whether `char::is_alphanumeric` holds of the character.
pub uninterp spec fn is_alphanumeric_char(c: char) -> bool;

/// The ASCII characters, below code point 128.
pub open spec fn is_ascii_char(c: char) -> bool {
    (c as int) < 128
}

pub open spec fn is_ascii_letter(c: char) -> bool {
    ('a' <= c && c <= 'z') || ('A' <= c && c <= 'Z')
}

pub open spec fn is_ascii_digit(c: char) -> bool {
    '0' <= c && c <= '9'
}

/// White space: the characters with Unicode's White_Space property. They
/// are tab, line feed, vertical tab, form feed and carriage return, space,
/// next line, no-break space, ogham space mark, the spaces from en quad to
/// hair space, line separator, paragraph separator, narrow no-break space,
/// medium mathematical space and ideographic space.
pub open spec fn is_space(c: char) -> bool {
    let n = c as int;
    ||| 0x09 <= n <= 0x0D
    ||| n == 0x20
    ||| n == 0x85
    ||| n == 0xA0
    ||| n == 0x1680
    ||| 0x2000 <= n <= 0x200A
    ||| n == 0x2028
    ||| n == 0x2029
    ||| n == 0x202F
    ||| n == 0x205F
    ||| n == 0x3000
}

/// A letter as `char::is_alphabetic` decides it.
pub open spec fn is_letter(c: char) -> bool {
    if is_ascii_char(c) {
        is_ascii_letter(c)
    } else {
        is_alphabetic_char(c)
    }
}

/// A letter or digit as `char::is_alphanumeric` decides it.
pub open spec fn is_letter_or_digit(c: char) -> bool {
    if is_ascii_char(c) {
        is_ascii_letter(c) || is_ascii_digit(c)
    } else {
        is_alphanumeric_char(c)
    }
}

/// Whether `c` is white space, as `char::is_whitespace` decides it: the
/// code points of Unicode's White_Space property.
pub(crate) fn char_is_whitespace(c: char) -> (b: bool)
    ensures
        b == is_space(c),
{
    match c {
        '\u{09}'..='\u{0D}' | ' ' | '\u{85}' | '\u{A0}' | '\u{1680}' | '\u{2000}'..='\u{200A}'
        | '\u{2028}' | '\u{2029}' | '\u{202F}' | '\u{205F}' | '\u{3000}' => true,
        _ => false,
    }
}

/// Calls `char::is_alphabetic`; the result is named `is_alphabetic_char`.
/// As std documents, an alphabetic character is also alphanumeric; on
/// ASCII characters (the Unicode Alphabetic property) it holds exactly of
/// the letters `a`-`z` and `A`-`Z`.
#[verifier::external_body]
fn char_is_alphabetic(c: char) -> (b: bool)
    ensures
        b == is_alphabetic_char(c),
        b ==> is_alphanumeric_char(c),
        is_ascii_char(c) ==> (b <==> is_ascii_letter(c)),
{
    c.is_alphabetic()
}

/// Calls `char::is_alphanumeric`; the result is named
/// `is_alphanumeric_char`. On ASCII characters (alphabetic or numeric, as
/// std documents) it holds exactly of the letters and the digits `0`-`9`.
#[verifier::external_body]
fn char_is_alphanumeric(c: char) -> (b: bool)
    ensures
        b == is_alphanumeric_char(c),
        is_ascii_char(c) ==> (b <==> (is_ascii_letter(c) || is_ascii_digit(c))),
{
    c.is_alphanumeric()
}

/// A character that may continue a name: a letter, a digit, `_`, or an
/// apostrophe (as in `G'`).
pub open spec fn is_word_char(c: char) -> bool {
    is_letter_or_digit(c) || c == '_' || c == '\''
}

/// First position from `i` on that holds a line break, or the end.
pub open spec fn comment_end(cs: Seq<char>, i: int) -> int
    decreases cs.len() - i,
{
    if i < 0 || i >= cs.len() || cs[i] == '\n' {
        i
    } else {
        comment_end(cs, i + 1)
    }
}

/// First position from `i` on that does not hold a word character, or the
/// end.
pub open spec fn word_end(cs: Seq<char>, i: int) -> int
    decreases cs.len() - i,
{
    if i < 0 || i >= cs.len() || !is_word_char(cs[i]) {
        i
    } else {
        word_end(cs, i + 1)
    }
}

pub proof fn lemma_comment_end(cs: Seq<char>, i: int)
    requires
        i >= 0,
    ensures
        i <= comment_end(cs, i),
        comment_end(cs, i) <= cs.len() || comment_end(cs, i) == i,
    decreases cs.len() - i,
{
    if i < cs.len() && cs[i] != '\n' {
        lemma_comment_end(cs, i + 1);
    }
}

pub proof fn lemma_word_end(cs: Seq<char>, i: int)
    requires
        i >= 0,
    ensures
        i <= word_end(cs, i),
        word_end(cs, i) <= cs.len() || word_end(cs, i) == i,
    decreases cs.len() - i,
{
    if i < cs.len() && is_word_char(cs[i]) {
        lemma_word_end(cs, i + 1);
    }
}

/// The token a word stands for: a keyword or an identifier.
pub open spec fn keyword(w: Seq<char>) -> TokV {
    if w == "in"@ {
        TokV::In
    } else if w == "notin"@ {
        TokV::NotIn
    } else if w == "and"@ {
        TokV::And
    } else if w == "or"@ {
        TokV::Or
    } else if w == "not"@ {
        TokV::Not
    } else if w == "xor"@ {
        TokV::SymDiff
    } else if w == "forall"@ {
        TokV::ForAll
    } else if w == "exists"@ {
        TokV::Exists
    } else if w == "empty"@ {
        TokV::EmptySet
    } else {
        TokV::Ident(w)
    }
}

/// The token of a character that always stands alone.
pub open spec fn single_char_tok(c: char) -> Option<TokV> {
    if c == '(' {
        Some(TokV::LParen)
    } else if c == ')' {
        Some(TokV::RParen)
    } else if c == '{' {
        Some(TokV::LBrace)
    } else if c == '}' {
        Some(TokV::RBrace)
    } else if c == ',' {
        Some(TokV::Comma)
    } else if c == ':' || c == '.' {
        Some(TokV::SuchThat)
    } else if c == '-' || c == '\\' || c == '∖' {
        Some(TokV::Diff)
    } else if c == '^' || c == '△' {
        Some(TokV::SymDiff)
    } else if c == '∪' {
        Some(TokV::Union)
    } else if c == '∩' {
        Some(TokV::Intersect)
    } else if c == '∧' {
        Some(TokV::And)
    } else if c == '∨' {
        Some(TokV::Or)
    } else if c == '¬' {
        Some(TokV::Not)
    } else if c == '∈' {
        Some(TokV::In)
    } else if c == '∉' {
        Some(TokV::NotIn)
    } else if c == '⊆' {
        Some(TokV::Subset)
    } else if c == '∀' {
        Some(TokV::ForAll)
    } else if c == '∃' {
        Some(TokV::Exists)
    } else if c == '≠' {
        Some(TokV::Ne)
    } else if c == '∅' {
        Some(TokV::EmptySet)
    } else {
        None
    }
}

/// Whether position `i` holds `c`.
pub open spec fn char_at_is(cs: Seq<char>, i: int, c: char) -> bool {
    0 <= i < cs.len() && cs[i] == c
}

pub open spec fn prepend(t: TokV, r: Result<Seq<TokV>, Seq<char>>) -> Result<Seq<TokV>, Seq<char>> {
    match r {
        Ok(s) => Ok(seq![t] + s),
        Err(e) => Err(e),
    }
}

pub open spec fn prepend_all(p: Seq<TokV>, r: Result<Seq<TokV>, Seq<char>>) -> Result<Seq<TokV>, Seq<char>> {
    match r {
        Ok(s) => Ok(p + s),
        Err(e) => Err(e),
    }
}

/// The tokens of `cs` from position `i` on; at an unexpected character,
/// the message that reports it. Whitespace separates tokens, `#` starts a comment that runs
/// to the end of the line, `||`, `&&`, `!=`, `==` and `<=` are two-character
/// operators, and a lone `<` is an error. A word starts with a letter or `_`
/// and goes on with letters, digits, `_` and apostrophes (`G'`).
pub open spec fn lex_from(cs: Seq<char>, i: int) -> Result<Seq<TokV>, Seq<char>>
    decreases cs.len() - i,
{
    if i < 0 || i >= cs.len() {
        Ok(Seq::empty())
    } else {
        let c = cs[i];
        if is_space(c) {
            lex_from(cs, i + 1)
        } else if c == '#' {
            let j = comment_end(cs, i + 1);
            proof {
                lemma_comment_end(cs, i + 1);
            }
            lex_from(cs, j)
        } else if single_char_tok(c) is Some {
            prepend(single_char_tok(c)->Some_0, lex_from(cs, i + 1))
        } else if c == '|' {
            if char_at_is(cs, i + 1, '|') {
                prepend(TokV::Or, lex_from(cs, i + 2))
            } else {
                prepend(TokV::Union, lex_from(cs, i + 1))
            }
        } else if c == '&' {
            if char_at_is(cs, i + 1, '&') {
                prepend(TokV::And, lex_from(cs, i + 2))
            } else {
                prepend(TokV::Intersect, lex_from(cs, i + 1))
            }
        } else if c == '!' {
            if char_at_is(cs, i + 1, '=') {
                prepend(TokV::Ne, lex_from(cs, i + 2))
            } else {
                prepend(TokV::Not, lex_from(cs, i + 1))
            }
        } else if c == '=' {
            if char_at_is(cs, i + 1, '=') {
                prepend(TokV::Eq, lex_from(cs, i + 2))
            } else {
                prepend(TokV::Eq, lex_from(cs, i + 1))
            }
        } else if c == '<' {
            if char_at_is(cs, i + 1, '=') {
                prepend(TokV::Subset, lex_from(cs, i + 2))
            } else {
                Err("Unerwartetes Zeichen '<' an Position "@ + decimal(i as nat))
            }
        } else if is_letter(c) || c == '_' {
            let j = word_end(cs, i + 1);
            proof {
                lemma_word_end(cs, i + 1);
            }
            prepend(keyword(cs.subrange(i, j)), lex_from(cs, j))
        } else {
            Err("Unerwartetes Zeichen '"@ + seq![c] + "'"@)
        }
    }
}

proof fn lemma_prepend_all_empty(r: Result<Seq<TokV>, Seq<char>>)
    ensures
        prepend_all(Seq::<TokV>::empty(), r) == r,
{
    if r is Ok {
        let s = r->Ok_0;
        assert(Seq::<TokV>::empty() + s =~= s);
    }
}

/// The tokens of a whole text.
pub open spec fn tokenize_spec(cs: Seq<char>) -> Result<Seq<TokV>, Seq<char>> {
    lex_from(cs, 0)
}

fn single_char_token(c: char) -> (r: Option<Tok>)
    ensures
        r matches Some(t) ==> single_char_tok(c) == Some(t@),
        r is None ==> single_char_tok(c) is None,
{
    match c {
        '(' => Some(Tok::LParen),
        ')' => Some(Tok::RParen),
        '{' => Some(Tok::LBrace),
        '}' => Some(Tok::RBrace),
        ',' => Some(Tok::Comma),
        ':' | '.' => Some(Tok::SuchThat),
        '-' | '\\' | '∖' => Some(Tok::Diff),
        '^' | '△' => Some(Tok::SymDiff),
        '∪' => Some(Tok::Union),
        '∩' => Some(Tok::Intersect),
        '∧' => Some(Tok::And),
        '∨' => Some(Tok::Or),
        '¬' => Some(Tok::Not),
        '∈' => Some(Tok::In),
        '∉' => Some(Tok::NotIn),
        '⊆' => Some(Tok::Subset),
        '∀' => Some(Tok::ForAll),
        '∃' => Some(Tok::Exists),
        '≠' => Some(Tok::Ne),
        '∅' => Some(Tok::EmptySet),
        _ => None,
    }
}

fn keyword_token(w: &str) -> (t: Tok)
    ensures
        t@ == keyword(w@),
{
    let is = |k: &str| -> (b: bool)
        ensures
            b == (w@ == k@),
        {
            match compare_str(w, k) {
                Order::Equal => true,
                _ => false,
            }
        };
    if is("in") {
        Tok::In
    } else if is("notin") {
        Tok::NotIn
    } else if is("and") {
        Tok::And
    } else if is("or") {
        Tok::Or
    } else if is("not") {
        Tok::Not
    } else if is("xor") {
        Tok::SymDiff
    } else if is("forall") {
        Tok::ForAll
    } else if is("exists") {
        Tok::Exists
    } else if is("empty") {
        Tok::EmptySet
    } else {
        Tok::Ident(w.to_owned())
    }
}

fn unexpected_char(src: &str, i: usize, n: usize) -> (s: String)
    requires
        i < n,
        n == src@.len(),
    ensures
        s@ == "Unerwartetes Zeichen '"@ + seq![src@[i as int]] + "'"@,
{
    let mut s = String::from_str("Unerwartetes Zeichen '");
    s.append(src.substring_char(i, i + 1));
    s.append("'");
    proof {
        assert(src@.subrange(i as int, i + 1) =~= seq![src@[i as int]]);
    }
    s
}

/// Splits `src` into tokens.
pub fn tokenize(src: &str) -> (r: Result<Vec<Tok>, String>)
    ensures
        match r {
            Ok(ts) => tokenize_spec(src@) == Ok::<Seq<TokV>, Seq<char>>(toks_view(ts@)),
            Err(e) => tokenize_spec(src@) == Err::<Seq<TokV>, Seq<char>>(e@),
        },
{
    let ghost cs = src@;
    let n = src.unicode_len();
    let mut chars: Vec<char> = Vec::new();
    let mut k: usize = 0;
    while k < n
        invariant
            n == cs.len(),
            cs == src@,
            k <= n,
            chars@ == cs.take(k as int),
        decreases n - k,
    {
        let c = src.get_char(k);
        chars.push(c);
        proof {
            assert(chars@ =~= cs.take(k + 1));
        }
        k = k + 1;
    }
    proof {
        assert(chars@ =~= cs);
    }
    let mut i: usize = 0;
    let mut toks: Vec<Tok> = Vec::new();
    proof {
        assert(toks_view(toks@) =~= Seq::<TokV>::empty());
        lemma_prepend_all_empty(lex_from(cs, 0));
    }
    while i < n
        invariant
            n == cs.len(),
            cs == src@,
            chars@ == cs,
            i <= n,
            lex_from(cs, 0) == prepend_all(toks_view(toks@), lex_from(cs, i as int)),
        decreases n - i,
    {
        let c = chars[i];
        let ghost before = toks_view(toks@);
        let ghost tok_start = i;
        if char_is_whitespace(c) {
            i = i + 1;
            continue;
        }
        if c == '#' {
            let ghost start = i + 1;
            i = i + 1;
            while i < n && chars[i] != '\n'
                invariant
                    n == cs.len(),
                    chars@ == cs,
                    start <= i <= n,
                    comment_end(cs, start as int) == comment_end(cs, i as int),
                decreases n - i,
            {
                i = i + 1;
            }
            continue;
        }
        let single = single_char_token(c);
        let next: usize;
        let tok: Tok;
        match single {
            Some(t) => {
                tok = t;
                next = i + 1;
                assert(lex_from(cs, i as int) == prepend(tok@, lex_from(cs, next as int)));
            },
            None => {
                if c == '|' {
                    if i + 1 < n && chars[i + 1] == '|' {
                        tok = Tok::Or;
                        next = i + 2;
                    } else {
                        tok = Tok::Union;
                        next = i + 1;
                    }
                } else if c == '&' {
                    if i + 1 < n && chars[i + 1] == '&' {
                        tok = Tok::And;
                        next = i + 2;
                    } else {
                        tok = Tok::Intersect;
                        next = i + 1;
                    }
                } else if c == '!' {
                    if i + 1 < n && chars[i + 1] == '=' {
                        tok = Tok::Ne;
                        next = i + 2;
                    } else {
                        tok = Tok::Not;
                        next = i + 1;
                    }
                } else if c == '=' {
                    tok = Tok::Eq;
                    if i + 1 < n && chars[i + 1] == '=' {
                        next = i + 2;
                    } else {
                        next = i + 1;
                    }
                } else if c == '<' {
                    if i + 1 < n && chars[i + 1] == '=' {
                        tok = Tok::Subset;
                        next = i + 2;
                    } else {
                        let mut msg = String::from_str("Unerwartetes Zeichen '<' an Position ");
                        crate::graph::push_decimal(&mut msg, i as u128);
                        return Err(msg);
                    }
                } else if char_is_alphabetic(c) || c == '_' {
                    let start = i;
                    while i < n && (char_is_alphanumeric(chars[i]) || chars[i] == '_' || chars[i] == '\'')
                        invariant
                            n == cs.len(),
                            chars@ == cs,
                            start < n,
                            start <= i <= n,
                            is_word_char(cs[start as int]),
                            i > start ==> word_end(cs, start + 1) == word_end(cs, i as int),
                        decreases n - i,
                    {
                        i = i + 1;
                    }
                    proof {
                        lemma_word_end(cs, start + 1);
                    }
                    let word = src.substring_char(start, i);
                    tok = keyword_token(word);
                    next = i;
                    assert(lex_from(cs, start as int) == prepend(tok@, lex_from(cs, next as int)));
                } else {
                    return Err(unexpected_char(src, i, n));
                }
            },
        }
        toks.push(tok);
        proof {
            assert(toks_view(toks@) =~= before.push(tok@));
            assert(lex_from(cs, tok_start as int) == prepend(tok@, lex_from(cs, next as int)));
            match lex_from(cs, next as int) {
                Ok(rest) => {
                    assert(before + (seq![tok@] + rest) =~= before.push(tok@) + rest);
                },
                Err(_) => {},
            }
        }
        i = next;
    }
    proof {
        assert(lex_from(cs, n as int) == Ok::<Seq<TokV>, Seq<char>>(Seq::empty()));
        assert(toks_view(toks@) + Seq::<TokV>::empty() =~= toks_view(toks@));
    }
    Ok(toks)
}

} // verus!
