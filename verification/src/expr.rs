//! The set-expression language over the vertex and edge sets of named
//! graphs: its tokens, syntax, parser and evaluator.
pub mod value;
pub mod syntax;
pub mod lexer;
pub mod parser;
pub mod eval;
pub mod laws;

pub use value::SetValue;
pub use syntax::{BoolExpr, Output, Qual, SetExpr, Stmt, Term, Tok};
pub use lexer::tokenize;
pub use parser::parse_statement;
pub use eval::{eval_set, eval_statement, EvalCtx, StmtResult};
