//! Frontend for a small scripting language: a single-pass tokenizer and a
//! stateful, mode-driven expression parser that turn source text into an
//! ordered sequence of syntax trees.
//!
//! Data flows source bytes -> `lexer::Lexer` -> tokens -> `parser::Parser`
//! -> top-level `expr::Expr` trees. Both passes are specified by total
//! mathematical functions (`lexer::spec_tokenize`, `parser::spec_parse`) and
//! proved to compute exactly those functions; failures are reported as
//! `error::SkError` values that the `formatter` renders.

pub mod error;
pub mod expr;
pub mod formatter;
pub mod lexer;
pub mod parser;
pub mod token;
