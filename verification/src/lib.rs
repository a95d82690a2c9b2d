//! An interpreter core for a small equation-solving language: a tokenless,
//! parenthesis-depth-driven formula parser, a range-tree builder, and a
//! compiler from range trees to evaluable expression trees.
//!
//! Formulas are handled as byte slices; a parse tree node carries a
//! half-open `[start, end)` byte range into the original formula, so the
//! text itself is never copied while a tree is built.
#![verifier::loop_isolation(false)]

pub mod compiler;
pub mod interpreter;
pub mod parser;
