//! A tiny prefix-notation, stack-based calculator language whose tokens are
//! single Unicode symbols.
//!
//! The library has two halves: a tokenizing parser that turns a source string
//! into an ordered list of tokens (numeric literals, delimited text literals,
//! and single-code-point identifiers), and a stack evaluator that walks that
//! token list in reverse order, pushing literals and dispatching identifiers
//! to a registry of builtin stack operations.

pub mod builtins;
pub mod eval;
pub mod parser;
pub mod types;
