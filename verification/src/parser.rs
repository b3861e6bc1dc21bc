//! The parser: a scanner over Unicode scalars, the grammar of the dialect as
//! mathematical functions, the recursive-descent productions that are
//! proved to compute it, and the laws proved of it.

pub mod blocks;
pub mod facts;
pub mod grammar;
pub mod outcome;
pub mod preserve;
pub mod roundtrip;
pub mod scanner;
pub mod spans;
