use vstd::prelude::*;
use crate::ast::atom::{Atom, AtomView};
use crate::lexer::TokenType;

verus! {

/// An expression. Each node owns its operands.
#[derive(Debug, PartialEq)]
pub enum Expr {
    /// Left operand, operator, right operand.
    Binary(Box<Expr>, TokenType, Box<Expr>),
    /// Target, operator, assigned value.
    Assignment(Box<Expr>, TokenType, Box<Expr>),
    Identifier(String),
    /// Name of the function and its arguments in order.
    CallExpr(String, Vec<Expr>),
    Literal(Atom),
}

/// The mathematical value of an [`Expr`].
pub enum ExprView {
    Binary(Box<ExprView>, TokenType, Box<ExprView>),
    Assignment(Box<ExprView>, TokenType, Box<ExprView>),
    Identifier(Seq<char>),
    CallExpr(Seq<char>, Seq<ExprView>),
    Literal(AtomView),
}

impl Expr {
    /// The mathematical value of this expression.
    pub open spec fn model(self) -> ExprView
        decreases self,
    {
        match self {
            Expr::Binary(l, op, r) => ExprView::Binary(Box::new(l.model()), op, Box::new(r.model())),
            Expr::Assignment(l, op, r) => ExprView::Assignment(
                Box::new(l.model()),
                op,
                Box::new(r.model()),
            ),
            Expr::Identifier(name) => ExprView::Identifier(name@),
            Expr::CallExpr(name, args) => ExprView::CallExpr(
                name@,
                Seq::new(
                    args.len() as nat,
                    |i: int|
                        if 0 <= i < args.len() {
                            args[i].model()
                        } else {
                            ExprView::Literal(AtomView::Bool(false))
                        },
                ),
            ),
            Expr::Literal(atom) => ExprView::Literal(atom@),
        }
    }
}

impl Expr {
    /// A copy of this expression.
    pub fn duplicate(&self) -> (copy: Expr)
        ensures
            copy@ == self@,
        decreases self,
    {
        match self {
            Expr::Binary(l, op, r) => Expr::Binary(
                Box::new(l.duplicate()),
                *op,
                Box::new(r.duplicate()),
            ),
            Expr::Assignment(l, op, r) => Expr::Assignment(
                Box::new(l.duplicate()),
                *op,
                Box::new(r.duplicate()),
            ),
            Expr::Identifier(name) => Expr::Identifier(name.clone()),
            Expr::CallExpr(name, args) => {
                let mut copies: Vec<Expr> = Vec::new();
                let mut i: usize = 0;
                while i < args.len()
                    invariant
                        i <= args.len(),
                        copies@.len() == i,
                        self is CallExpr,
                        self->CallExpr_1 == *args,
                        forall|k: int| 0 <= k < i ==> (#[trigger] copies@[k])@ == args@[k]@,
                    decreases args.len() - i,
                {
                    copies.push(args[i].duplicate());
                    i += 1;
                }
                let copy = Expr::CallExpr(name.clone(), copies);
                assert(copy@->CallExpr_1 =~= self@->CallExpr_1);
                copy
            },
            Expr::Literal(atom) => Expr::Literal(atom.duplicate()),
        }
    }
}

/// The values of a sequence of expressions, in order.
pub open spec fn exprs_view(exprs: Seq<Expr>) -> Seq<ExprView> {
    Seq::new(exprs.len(), |i: int| exprs[i]@)
}

impl Expr {
    /// The value of a call is the call of its arguments' values.
    pub proof fn lemma_call_view(name: String, args: Vec<Expr>)
        ensures
            Expr::CallExpr(name, args)@ == ExprView::CallExpr(name@, exprs_view(args@)),
    {
        assert(Expr::CallExpr(name, args)@->CallExpr_1 =~= exprs_view(args@));
    }
}

impl Clone for Expr {
    fn clone(&self) -> (copy: Expr)
        ensures
            copy@ == self@,
    {
        self.duplicate()
    }
}

impl View for Expr {
    type V = ExprView;

    open spec fn view(&self) -> ExprView {
        self.model()
    }
}

} // verus!
