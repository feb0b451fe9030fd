//! An in-memory SSA-style intermediate representation: hash-consed types,
//! functions made of basic blocks and values, and a use–def graph that is kept
//! consistent across construction, replacement and removal.

pub mod front;
pub mod ir;
