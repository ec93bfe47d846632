//! The evaluator proper: the functions that run statements and expressions.

pub mod assignment;
pub mod blocks;
pub mod calls;
pub mod changes;
pub mod expressions;
pub mod statements;
pub mod strings;
pub mod waiting;
