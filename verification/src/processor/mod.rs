//! The front end: source text to tokens, tokens to statements.

pub mod expression_tree;
pub mod lexer;
pub mod syntax_tree;

pub use lexer::tokenize;
pub use syntax_tree::generate_syntax_tree;

