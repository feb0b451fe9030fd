//! The syntax tree of the textual form of the IR.

pub mod ast;
pub mod span;
