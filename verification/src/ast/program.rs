use vstd::prelude::*;
use crate::ast::stmt::{Stmt, StmtView, stmts_view};

verus! {

/// A program: its statements in order.
#[derive(Debug)]
pub struct Program {
    pub statements: Vec<Stmt>,
}

impl View for Program {
    type V = Seq<StmtView>;

    open spec fn view(&self) -> Seq<StmtView> {
        stmts_view(self.statements@)
    }
}

} // verus!
