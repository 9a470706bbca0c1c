//! Pattern canonicalization for a compiler front end: surface patterns
//! produced by the parser are resolved into symbol-bound canonical patterns,
//! with every problem both reported to a diagnostics sink and kept in the
//! tree as a runtime-error node. Also holds the parser's position state.
pub mod region;
pub mod ast;
pub mod symbol;
pub mod problem;
pub mod scope;
pub mod output;
pub mod env;
pub mod num;
pub mod expr;
pub mod pattern;
pub mod canonicalize;
pub mod state;
pub mod guarantees;
