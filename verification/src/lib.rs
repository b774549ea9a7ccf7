//! A teaching-scale ahead-of-time compiler for a minimal imperative language
//! with two statement forms: variable declaration (`let name = expr;`) and
//! process exit (`exit(expr);`), where an expression is an integer literal or
//! an identifier.
//!
//! The pipeline has three stages, each verified against a functional
//! specification of its output:
//! lexical analysis ([`tokenizer`]), recursive-descent parsing ([`parser`]),
//! and single-pass code generation into assembly text ([`generator`]).
//! The [`arena`] module holds the bump allocator that backs AST allocation,
//! and [`laws`] proves the properties that relate the stages: when code
//! generation succeeds, how it fails, and the slot-offset arithmetic.

pub mod arena;
pub mod generator;
pub mod laws;
pub mod parser;
pub mod tokenizer;
