//! A compiler front end for a lightweight text markup dialect.
//!
//! The input is decoded into Unicode scalars and read by a scanner whose
//! cursor never moves backwards and never leaves the buffer. A
//! recursive-descent parser turns it into a typed document tree, or into
//! the first failure met, with its position. Renderers and tree transforms
//! consume the finished tree.
//!
//! What the parser yields is stated by a grammar over sequences of scalars,
//! and every executable production is proved to compute it. Two laws are
//! proved of the grammar: parsing preserves the literal text of its input,
//! and a document of a described subset, written back in the source
//! dialect, parses to itself.

pub mod ast;
pub mod compiler;
pub mod error;
pub mod format;
pub mod highlighter;
pub mod parser;
pub mod pipeline;
pub mod text;
pub mod transformer;
