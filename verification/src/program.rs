//! Running a program of set statements: the text is cut into lines, and each
//! line is parsed, evaluated and reported on.
use vstd::prelude::*;
use vstd::string::*;
use crate::expr::eval::{
    eval_statement, eval_statement_spec, statement_error_text, EvalCtx, CtxV, StmtResult,
    StmtResultV,
};
use crate::expr::lexer::{char_is_whitespace, is_space};
use crate::expr::parser::{parse_statement, parse_statement_spec};
use crate::expr::value::{format_text, kind_name, set_len, SetVal, SetValue};
use crate::graph::{decimal, push_decimal, Graph, GraphView};
use crate::namemap::NameMap;
use crate::workbench::{assembled_view, truncate, truncated};

verus! {

/// Statements are separated by line breaks and by `;`.
pub open spec fn is_separator(c: char) -> bool {
    c == '\n' || c == ';'
}

/// `cs` cut at every separator, the pieces in order; two separators in a
/// row leave an empty piece between them.
pub open spec fn split_pieces(cs: Seq<char>) -> Seq<Seq<char>>
    decreases cs.len(),
{
    if cs.len() == 0 {
        seq![Seq::empty()]
    } else {
        let rest = split_pieces(cs.drop_last());
        if is_separator(cs.last()) {
            rest.push(Seq::empty())
        } else {
            rest.update(rest.len() - 1, rest.last().push(cs.last()))
        }
    }
}

/// A text always has at least one piece.
pub proof fn lemma_split_pieces_len(cs: Seq<char>)
    ensures
        split_pieces(cs).len() >= 1,
    decreases cs.len(),
{
    if cs.len() > 0 {
        lemma_split_pieces_len(cs.drop_last());
    }
}

/// `s` without its leading white space.
pub open spec fn trim_start(s: Seq<char>) -> Seq<char>
    decreases s.len(),
{
    if s.len() > 0 && is_space(s[0]) {
        trim_start(s.drop_first())
    } else {
        s
    }
}

/// `s` without its trailing white space.
pub open spec fn trim_end(s: Seq<char>) -> Seq<char>
    decreases s.len(),
{
    if s.len() > 0 && is_space(s.last()) {
        trim_end(s.drop_last())
    } else {
        s
    }
}

/// `s` without white space at either end.
pub open spec fn trim(s: Seq<char>) -> Seq<char> {
    trim_end(trim_start(s))
}

/// A piece is run as a statement unless it is blank or a comment (starts
/// with `#`).
pub open spec fn is_statement_line(t: Seq<char>) -> bool {
    t.len() > 0 && t[0] != '#'
}

/// The trimmed pieces that are statements, in order.
pub open spec fn statement_lines(pieces: Seq<Seq<char>>) -> Seq<Seq<char>>
    decreases pieces.len(),
{
    if pieces.len() == 0 {
        Seq::empty()
    } else {
        let rest = statement_lines(pieces.drop_last());
        let t = trim(pieces.last());
        if is_statement_line(t) {
            rest.push(t)
        } else {
            rest
        }
    }
}

/// The statements of a program text, each trimmed.
pub open spec fn program_lines_spec(cs: Seq<char>) -> Seq<Seq<char>> {
    statement_lines(split_pieces(cs))
}

pub open spec fn texts(v: Seq<String>) -> Seq<Seq<char>> {
    v.map_values(|s: String| s@)
}

/// `s` without white space at either end.
pub fn trim_text(s: &str) -> (r: String)
    ensures
        r@ == trim(s@),
{
    let n = s.unicode_len();
    let mut start: usize = 0;
    proof {
        assert(s@.subrange(0, n as int) =~= s@);
    }
    while start < n && char_is_whitespace(s.get_char(start))
        invariant
            n == s@.len(),
            start <= n,
            trim_start(s@) == trim_start(s@.subrange(start as int, n as int)),
        decreases n - start,
    {
        proof {
            let t = s@.subrange(start as int, n as int);
            assert(t.drop_first() =~= s@.subrange(start + 1, n as int));
        }
        start = start + 1;
    }
    proof {
        let t = s@.subrange(start as int, n as int);
        if start == n {
            assert(t.len() == 0);
        }
        assert(trim_start(s@) == t);
    }
    let mut end: usize = n;
    while end > start && char_is_whitespace(s.get_char(end - 1))
        invariant
            n == s@.len(),
            start <= end <= n,
            trim(s@) == trim_end(s@.subrange(start as int, end as int)),
        decreases end - start,
    {
        proof {
            let t = s@.subrange(start as int, end as int);
            assert(t.drop_last() =~= s@.subrange(start as int, end - 1));
        }
        end = end - 1;
    }
    String::from_str(s.substring_char(start, end))
}

/// The statements of a program text: the pieces between line breaks and
/// `;`, trimmed, leaving out blank pieces and comments.
pub fn program_lines(input: &str) -> (lines: Vec<String>)
    ensures
        texts(lines@) == program_lines_spec(input@),
{
    let ghost cs = input@;
    let n = input.unicode_len();
    let mut lines: Vec<String> = Vec::new();
    let mut start: usize = 0;
    let mut i: usize = 0;
    proof {
        assert(cs.take(0) =~= Seq::<char>::empty());
        assert(split_pieces(cs.take(0)).drop_last() =~= Seq::<Seq<char>>::empty());
        assert(texts(lines@) =~= Seq::<Seq<char>>::empty());
    }
    while i < n
        invariant
            cs == input@,
            n == cs.len(),
            start <= i <= n,
            split_pieces(cs.take(i as int)).len() >= 1,
            split_pieces(cs.take(i as int)).last() == cs.subrange(start as int, i as int),
            texts(lines@) == statement_lines(split_pieces(cs.take(i as int)).drop_last()),
        decreases n - i,
    {
        let c = input.get_char(i);
        let ghost p = split_pieces(cs.take(i as int));
        proof {
            assert(cs.take(i + 1).drop_last() =~= cs.take(i as int));
            assert(cs.take(i + 1).last() == c);
        }
        if c == '\n' || c == ';' {
            let piece = trim_text(input.substring_char(start, i));
            let ghost before = texts(lines@);
            proof {
                assert(p.drop_last().push(p.last()) =~= p);
                assert(statement_lines(p) == if is_statement_line(trim(p.last())) {
                    statement_lines(p.drop_last()).push(trim(p.last()))
                } else {
                    statement_lines(p.drop_last())
                });
            }
            let keep = piece.unicode_len() > 0 && piece.as_str().get_char(0) != '#';
            if keep {
                lines.push(piece);
                proof {
                    assert(texts(lines@) =~= before.push(trim(p.last())));
                }
            }
            proof {
                let q = split_pieces(cs.take(i + 1));
                assert(q == p.push(Seq::empty()));
                assert(q.drop_last() =~= p);
                assert(q.last() =~= cs.subrange(i + 1, i + 1));
            }
            start = i + 1;
        } else {
            proof {
                let q = split_pieces(cs.take(i + 1));
                assert(q == p.update(p.len() - 1, p.last().push(c)));
                assert(q.drop_last() =~= p.drop_last());
                assert(q.last() =~= cs.subrange(start as int, i + 1));
            }
        }
        i = i + 1;
    }
    let piece = trim_text(input.substring_char(start, n));
    let ghost before = texts(lines@);
    let ghost p = split_pieces(cs);
    proof {
        assert(cs.take(n as int) =~= cs);
        assert(p.drop_last().push(p.last()) =~= p);
    }
    let keep = piece.unicode_len() > 0 && piece.as_str().get_char(0) != '#';
    if keep {
        lines.push(piece);
        proof {
            assert(texts(lines@) =~= before.push(trim(p.last())));
        }
    }
    lines
}

/// What a line of a program gives, read as a statement and evaluated.
#[verifier::opaque]
pub open spec fn line_result(line: Seq<char>, c: CtxV) -> Result<StmtResultV, ()> {
    match parse_statement_spec(line) {
        Ok(st) => eval_statement_spec(st, c),
        Err(_) => Err(()),
    }
}

/// The report on a named set: `Name = Kind (n Elemente): {…}`, the elements
/// cut after 160 characters.
pub open spec fn set_message(name: Seq<char>, v: SetVal) -> Seq<char> {
    name + " = "@ + kind_name(v) + " ("@ + decimal(set_len(v)) + " Elemente): "@ + truncated(
        format_text(v),
        160,
    )
}

/// The report on a new graph: its name and how many vertices and edges it
/// has.
pub open spec fn graph_message(name: Seq<char>, g: GraphView) -> Seq<char> {
    "Graph \""@ + name + "\" erzeugt: |V| = "@ + decimal(g.vertices.len()) + ", |E| = "@
        + decimal(g.edges.len())
}

/// The report on a line that failed: the line, then the reason.
pub open spec fn failure_message(line: Seq<char>, reason: Seq<char>) -> Seq<char> {
    line + "\n  Fehler: "@ + reason
}

/// Why a line fails: the message with which it is refused as a statement,
/// or else the one with which its evaluation is refused.
#[verifier::opaque]
pub open spec fn failure_reason(line: Seq<char>, c: CtxV) -> Seq<char> {
    match parse_statement_spec(line) {
        Err(m) => m,
        Ok(st) => match statement_error_text(st, c) {
            Some(m) => m,
            None => Seq::empty(),
        },
    }
}

/// What running one line of a program gives.
#[derive(Debug)]
pub enum LineOutcome {
    /// A set was named: its name, its value and the report.
    NamedSet(String, SetValue, String),
    /// A graph was defined: its name, the graph and the report.
    NewGraph(String, Graph, String),
    /// The line does not parse or does not evaluate: the report.
    Failed(String),
}

/// The report on a named set.
pub fn describe_set(name: &str, v: &SetValue) -> (msg: String)
    ensures
        msg@ == set_message(name@, v@),
{
    let mut msg = String::from_str(name);
    msg.append(" = ");
    msg.append(v.kind());
    msg.append(" (");
    push_decimal(&mut msg, v.len() as u128);
    msg.append(" Elemente): ");
    let shown = truncate(v.format().as_str(), 160);
    msg.append(shown.as_str());
    msg
}

fn describe_graph(name: &str, g: &Graph) -> (msg: String)
    ensures
        msg@ == graph_message(name@, g@),
{
    let mut msg = String::from_str("Graph \"");
    msg.append(name);
    msg.append("\" erzeugt: |V| = ");
    push_decimal(&mut msg, g.vertices.len() as u128);
    msg.append(", |E| = ");
    push_decimal(&mut msg, g.edges.len() as u128);
    msg
}

fn describe_failure(line: &str, reason: &str) -> (msg: String)
    ensures
        msg@ == line@ + "\n  Fehler: "@ + reason@,
{
    let mut msg = String::from_str(line);
    msg.append("\n  Fehler: ");
    msg.append(reason);
    msg
}

/// Runs one line of a program: parses it as a statement and evaluates it
/// against the graphs and named sets of `ctx`. A graph definition is built
/// in the mode `directed`.
pub fn run_line(line: &str, ctx: &EvalCtx, directed: bool) -> (r: LineOutcome)
    ensures
        match r {
            LineOutcome::NamedSet(name, v, msg) => {
                &&& line_result(line@, ctx@) == Ok::<StmtResultV, ()>(
                    StmtResultV::NamedSet(name@, v@),
                )
                &&& msg@ == set_message(name@, v@)
            },
            LineOutcome::NewGraph(name, g, msg) => {
                &&& line_result(line@, ctx@) matches Ok(StmtResultV::Graph(n, vs, es))
                &&& n == name@
                &&& g@ == assembled_view(directed, vs, es)
                &&& msg@ == graph_message(name@, g@)
            },
            LineOutcome::Failed(msg) => {
                &&& line_result(line@, ctx@) is Err
                &&& msg@ == failure_message(line@, failure_reason(line@, ctx@))
            },
        },
{
    proof {
        reveal(line_result);
        reveal(failure_reason);
    }
    let stmt = match parse_statement(line) {
        Ok(st) => st,
        Err(e) => {
            let msg = describe_failure(line, e.as_str());
            assert(msg@ == failure_message(line@, e@));
            return LineOutcome::Failed(msg);
        },
    };
    match eval_statement(&stmt, ctx) {
        Ok(StmtResult::NamedSet(name, value)) => {
            let msg = describe_set(name.as_str(), &value);
            LineOutcome::NamedSet(name, value, msg)
        },
        Ok(StmtResult::Graph(name, verts, edges)) => {
            let g = Graph::assemble(directed, &verts, &edges);
            let msg = describe_graph(name.as_str(), &g);
            LineOutcome::NewGraph(name, g, msg)
        },
        Err(e) => {
            let msg = describe_failure(line, e.as_str());
            assert(msg@ == failure_message(line@, e@));
            LineOutcome::Failed(msg)
        },
    }
}

/// How many entries a log keeps.
pub const LOG_CAPACITY: usize = 50;

/// A log with `entry` appended, its oldest entry dropped when it then holds
/// more than `LOG_CAPACITY` entries.
pub open spec fn appended_log<T>(log: Seq<T>, entry: T) -> Seq<T> {
    if log.len() + 1 > LOG_CAPACITY {
        log.push(entry).drop_first()
    } else {
        log.push(entry)
    }
}

/// Appends an entry to a log that keeps the latest `LOG_CAPACITY` entries.
pub fn push_log(log: &mut Vec<(bool, String)>, ok: bool, msg: String)
    ensures
        final(log)@ == appended_log(old(log)@, (ok, msg)),
{
    log.push((ok, msg));
    if log.len() > LOG_CAPACITY {
        log.remove(0);
        proof {
            assert(log@ =~= old(log)@.push((ok, msg)).drop_first());
        }
    }
}

/// What running a program reports on one statement.
pub enum OutcomeV {
    /// A set was named: its name, its value and the report.
    NamedSet(Seq<char>, SetVal, Seq<char>),
    /// A graph was defined: its name, the graph and the report.
    NewGraph(Seq<char>, GraphView, Seq<char>),
    /// The statement failed: the statement and the reason.
    Failed(Seq<char>, Seq<char>),
}

/// Running the statements `lines` one after the other against the graphs
/// `g` and the named sets `n`: a named set is added to the named sets, a
/// new graph to the graphs, and both are seen by the statements after it;
/// the first statement that fails ends the run. Gives the outcome of each
/// statement run, and the graphs and named sets after the run.
pub open spec fn program_run(
    lines: Seq<Seq<char>>,
    g: Map<Seq<char>, GraphView>,
    n: Map<Seq<char>, SetVal>,
    directed: bool,
) -> (Seq<OutcomeV>, Map<Seq<char>, GraphView>, Map<Seq<char>, SetVal>)
    decreases lines.len(),
{
    if lines.len() == 0 {
        (Seq::empty(), g, n)
    } else {
        match line_result(lines[0], CtxV { graphs: g, named: n }) {
            Ok(StmtResultV::NamedSet(name, v)) => {
                let rest = program_run(lines.drop_first(), g, n.insert(name, v), directed);
                (seq![OutcomeV::NamedSet(name, v, set_message(name, v))] + rest.0, rest.1, rest.2)
            },
            Ok(StmtResultV::Graph(name, vs, es)) => {
                let gv = assembled_view(directed, vs, es);
                let rest = program_run(lines.drop_first(), g.insert(name, gv), n, directed);
                (seq![OutcomeV::NewGraph(name, gv, graph_message(name, gv))] + rest.0, rest.1, rest.2)
            },
            Err(_) => (
                seq![
                    OutcomeV::Failed(
                        lines[0],
                        failure_reason(lines[0], CtxV { graphs: g, named: n }),
                    ),
                ],
                g,
                n,
            ),
        }
    }
}

/// `o` is the outcome `v` (a failure reported on its statement, with its
/// reason).
pub open spec fn outcome_matches(o: LineOutcome, v: OutcomeV) -> bool {
    match (o, v) {
        (LineOutcome::NamedSet(a, x, m), OutcomeV::NamedSet(b, y, k)) => a@ == b && x@ == y
            && m@ == k,
        (LineOutcome::NewGraph(a, x, m), OutcomeV::NewGraph(b, y, k)) => a@ == b && x@ == y
            && m@ == k,
        (LineOutcome::Failed(m), OutcomeV::Failed(line, reason)) => m@ == failure_message(
            line,
            reason,
        ),
        _ => false,
    }
}

/// Runs a program text (see `program_lines` and `program_run`) against the
/// graphs and named sets given, which it updates; returns the outcome of
/// each statement run.
pub fn run_program(
    input: &str,
    graphs: &mut NameMap<Graph>,
    named: &mut NameMap<SetValue>,
    directed: bool,
) -> (outcomes: Vec<LineOutcome>)
    ensures
        ({
            let run = program_run(program_lines_spec(input@), old(graphs)@, old(named)@, directed);
            &&& outcomes@.len() == run.0.len()
            &&& forall|i: int|
                0 <= i < run.0.len() ==> outcome_matches(#[trigger] outcomes@[i], run.0[i])
            &&& final(graphs)@ == run.1
            &&& final(named)@ == run.2
        }),
{
    let lines = program_lines(input);
    let ghost ls = texts(lines@);
    let ghost whole = program_run(ls, graphs@, named@, directed);
    let ghost mut done: Seq<OutcomeV> = Seq::empty();
    let mut outcomes: Vec<LineOutcome> = Vec::new();
    let mut i: usize = 0;
    let mut stopped = false;
    proof {
        assert(ls.skip(0) =~= ls);
        assert(Seq::<OutcomeV>::empty() + whole.0 =~= whole.0);
    }
    while i < lines.len() && !stopped
        invariant
            ls == texts(lines@),
            whole == program_run(ls, old(graphs)@, old(named)@, directed),
            i <= lines@.len(),
            outcomes@.len() == done.len(),
            forall|j: int| 0 <= j < done.len() ==> outcome_matches(#[trigger] outcomes@[j], done[j]),
            !stopped ==> ({
                let rest = program_run(ls.skip(i as int), graphs@, named@, directed);
                whole == (done + rest.0, rest.1, rest.2)
            }),
            stopped ==> whole == (done, graphs@, named@),
        decreases lines@.len() - i, if stopped { 0int } else { 1int },
    {
        let ghost g_before = graphs@;
        let ghost n_before = named@;
        let ghost rest = program_run(ls.skip(i as int), g_before, n_before, directed);
        proof {
            assert(ls.skip(i as int)[0] == lines@[i as int]@);
            assert(ls.skip(i as int).drop_first() =~= ls.skip(i + 1));
        }
        let outcome = {
            let ctx = EvalCtx { graphs: graphs.refs(), named: &*named };
            run_line(lines[i].as_str(), &ctx, directed)
        };
        match &outcome {
            LineOutcome::NamedSet(name, value, _) => {
                named.insert(name.clone(), value.duplicate());
            },
            LineOutcome::NewGraph(name, g, _) => {
                graphs.insert(name.clone(), g.duplicate());
            },
            LineOutcome::Failed(_) => {
                stopped = true;
            },
        }
        let ghost next = rest.0[0];
        proof {
            let after = program_run(ls.skip(i + 1), graphs@, named@, directed);
            match &outcome {
                LineOutcome::NamedSet(name, value, msg) => {
                    assert(rest.0 =~= seq![OutcomeV::NamedSet(name@, value@, msg@)] + after.0);
                    assert(done.push(next) + after.0 =~= done + rest.0);
                },
                LineOutcome::NewGraph(name, g, msg) => {
                    assert(rest.0 =~= seq![OutcomeV::NewGraph(name@, g@, msg@)] + after.0);
                    assert(done.push(next) + after.0 =~= done + rest.0);
                },
                LineOutcome::Failed(msg) => {
                    assert(rest.0 =~= seq![
                        OutcomeV::Failed(
                            lines@[i as int]@,
                            failure_reason(
                                lines@[i as int]@,
                                CtxV { graphs: g_before, named: n_before },
                            ),
                        ),
                    ]);
                    assert(done.push(next) =~= done + rest.0);
                },
            }
            done = done.push(next);
        }
        outcomes.push(outcome);
        i = i + 1;
    }
    proof {
        if !stopped {
            assert(ls.skip(i as int) =~= Seq::<Seq<char>>::empty());
            assert(done + Seq::<OutcomeV>::empty() =~= done);
        }
    }
    outcomes
}

} // verus!
