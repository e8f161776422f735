//! A small Lisp-family interpreter core: a reader from text to expression trees, lexically
//! scoped environments, builtin procedures, and an evaluator. Float arithmetic and output are
//! supplied by the embedding program through `host::Host`.

mod text;
pub mod token;
pub mod expr;
pub mod error;
pub mod host;
pub mod env;
pub mod ops;
pub mod display;
pub mod eval;
pub mod parse;
pub mod lex;
pub mod laws;
