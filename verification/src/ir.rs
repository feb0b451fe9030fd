//! The IR core: types, handles, value kinds, data-flow graphs, layouts and
//! programs.

pub mod context;
pub mod dfg;
pub mod entities;
pub mod error;
pub mod function;
pub mod idman;
pub mod laws;
pub mod layout;
pub mod program;
pub mod table;
pub mod types;
pub mod typing;
pub mod usedef;
