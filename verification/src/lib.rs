//! A small scripting language: source text is cut into tokens, tokens are
//! parsed into a syntax tree, and the tree is evaluated against a chain of
//! scopes. Every stage is stated as a mathematical function of its input and
//! the executable code is proved to compute that function.

pub mod ast;
pub mod double;
pub mod lexer;
pub mod literal;
pub mod parser;
pub mod runtime;
