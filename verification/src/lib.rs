//! A verified interpreter front end for a tiny expression language.
//!
//! The language has integer and boolean literals, variables, prefix-notation
//! binary and unary operators (`+(1, 2)`, `!T`), conditionals
//! (`if c then a else b`), single-argument anonymous functions
//! (`func x => body`) and application (`apply(f, x)`).
//!
//! The pipeline has three stages, each with an exact contract against a
//! mathematical model of its behaviour:
//! * [`lexer::lex`] turns source text into tokens,
//! * [`parser::Parser`] turns tokens into an [`expression::Expression`] tree,
//! * [`expression::Expression::eval`] evaluates a tree to an [`eval::Value`],
//!   with lexically scoped closures.

pub mod eval;
pub mod expression;
pub mod lexer;
pub mod parser;
pub mod roundtrip;
