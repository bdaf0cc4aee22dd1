//! A small interpreter for a line-oriented arithmetic language with integer
//! expressions, `let` declarations, a blocking `wait` instruction and a
//! `print` side effect.
//!
//! The pipeline has three stages: the lexer turns program text into tokens,
//! the parser turns tokens into an abstract syntax tree by recursive descent
//! with precedence climbing, and the evaluator walks the tree with a mutable
//! variable environment. The evaluator does not perform I/O itself: it
//! records prints and waits as an ordered effect trace, which a host replays.

pub mod environment;
pub mod eval;
pub mod laws;
pub mod lexer;
pub mod node;
pub mod parser;
pub mod token;
