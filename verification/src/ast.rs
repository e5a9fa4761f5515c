//! The syntax tree: literal values, expressions, statements and programs.

pub mod atom;
pub mod expr;
pub mod program;
pub mod stmt;
