//! Evaluation: runtime values, scopes, and the tree-walking interpreter.

pub mod arithmetic;
pub mod depth;
pub mod environment;
pub mod interpreter;
pub mod scopes;
pub mod semantics;
pub mod values;
