//! Runtime of a small scripting language whose variable bindings expire,
//! keep a history of earlier values, and can re-run code when they change.

pub mod alias;
pub mod base;
pub mod binding;
pub mod builtin;
pub mod clock;
pub mod evaluator;
pub mod events;
pub mod interpreter;
pub mod laws;
pub mod multi_file;
pub mod number;
pub mod processor;
pub mod rules;
pub mod scope;
pub mod semantics;
pub mod storage;
pub mod text;
