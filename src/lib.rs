//! A small interpreter for an S-expression language: a lexer, a parser, a
//! scope-chain environment and a recursive evaluator.
//!
//! Text goes through [`tokenize`] and [`parse`] into one [`Object::List`],
//! which [`eval`] reduces in an [`Env`]. Each step is stated as a spec
//! function (`lexer::tokens_of`, `parser::parsed`, the module `sem`) and
//! the code is proved to compute exactly that.
//!
//! Floats and files are not computed here. A float is held as the canonical
//! text of a 64-bit float, and the evaluator asks its [`Host`] for what a
//! literal denotes, what an operation on floats gives and what a module file
//! holds. When the host holds no answer yet, evaluation stops with
//! [`EvalError::Needs`]; the caller records the answer with
//! [`Host::answer`] and evaluates again from a copy of the frames it started
//! with. Evaluation depends on nothing but its inputs, so the second run
//! retraces the first up to the new answer.
//!
//! Policies where the language leaves a choice: calls see the caller's
//! frames (dynamic scope); integer overflow, division by zero and negative
//! exponents are errors; nesting deeper than [`sem::MAX_DEPTH`] is an error;
//! an unterminated string is a lexical error.

pub mod text;
pub mod value;
pub mod lexer;
pub mod parser;
pub mod env;
pub mod host;
pub mod sem;
pub mod eval;
pub mod laws;
pub mod report;

pub use env::Env;
pub use eval::{attempt, eval, EvalError, Step};
pub use host::{ArithOp, Host, Reply, Request};
pub use lexer::{tokenize, Token, TokenError};
pub use parser::{parse, ParseError, ParseErrorKind};
pub use value::Object;
