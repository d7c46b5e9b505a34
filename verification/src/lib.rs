//! A compiler for the conditions of pattern-matching rules.
//!
//! Rules come as syntax trees. The condition of each rule is checked
//! for its type and translated to structured code for a stack machine, in
//! which a value that is undefined is a branch to a handler and never a
//! value of its own. The code of all rules is the entry function of one
//! module, which reports every rule whose condition is defined and true.
//!
//! The library states what a condition means and what the code does, and
//! proves that the two agree.
pub mod ast;
pub mod compiler;
pub mod ident_pool;
pub mod modules;
pub mod symbol_table;
pub mod warnings;
pub mod wasm;
