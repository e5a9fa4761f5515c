use vstd::prelude::*;
use crate::ast::expr::{Expr, ExprView};
use crate::lexer::TokenType;

verus! {

/// A statement. A function's body is always a `Block`.
#[derive(Debug, PartialEq)]
pub enum Stmt {
    /// Name, declared type, whether it is constant, initial value.
    VarDeclaration(String, TokenType, bool, Expr),
    /// Name, parameter names, body.
    FuncDeclaration(String, Vec<String>, Box<Stmt>),
    /// `{ ... }`
    Block(Vec<Stmt>),
    /// `return ...`
    Return(Expr),
    Print(Expr),
    Expression(Expr),
}

/// The mathematical value of a [`Stmt`].
pub enum StmtView {
    VarDeclaration(Seq<char>, TokenType, bool, ExprView),
    FuncDeclaration(Seq<char>, Seq<Seq<char>>, Box<StmtView>),
    Block(Seq<StmtView>),
    Return(ExprView),
    Print(ExprView),
    Expression(ExprView),
}

/// The texts of a sequence of strings, in order.
pub open spec fn names_view(names: Seq<String>) -> Seq<Seq<char>> {
    Seq::new(names.len(), |i: int| names[i]@)
}

/// A copy of a list of names.
pub fn duplicate_names(names: &Vec<String>) -> (copy: Vec<String>)
    ensures
        names_view(copy@) == names_view(names@),
{
    let mut copy: Vec<String> = Vec::new();
    let mut i: usize = 0;
    while i < names.len()
        invariant
            i <= names.len(),
            copy@.len() == i,
            forall|k: int| 0 <= k < i ==> (#[trigger] copy@[k])@ == names@[k]@,
        decreases names.len() - i,
    {
        copy.push(names[i].clone());
        i += 1;
    }
    assert(names_view(copy@) =~= names_view(names@));
    copy
}

impl StmtView {
    /// Whether every function declared in this statement has a block for
    /// its body.
    pub open spec fn well_formed(self) -> bool
        decreases self,
    {
        match self {
            StmtView::FuncDeclaration(_, _, body) => *body is Block && body.well_formed(),
            StmtView::Block(stmts) => forall|i: int|
                0 <= i < stmts.len() ==> (#[trigger] stmts[i]).well_formed(),
            _ => true,
        }
    }
}

/// Whether every statement of the sequence is well formed.
pub open spec fn well_formed_stmts(stmts: Seq<StmtView>) -> bool {
    forall|i: int| 0 <= i < stmts.len() ==> (#[trigger] stmts[i]).well_formed()
}

impl Stmt {
    /// The mathematical value of this statement.
    pub open spec fn model(self) -> StmtView
        decreases self,
    {
        match self {
            Stmt::VarDeclaration(name, typing, is_const, value) => StmtView::VarDeclaration(
                name@,
                typing,
                is_const,
                value@,
            ),
            Stmt::FuncDeclaration(name, parameters, body) => StmtView::FuncDeclaration(
                name@,
                names_view(parameters@),
                Box::new(body.model()),
            ),
            Stmt::Block(stmts) => StmtView::Block(
                Seq::new(
                    stmts.len() as nat,
                    |i: int|
                        if 0 <= i < stmts.len() {
                            stmts[i].model()
                        } else {
                            StmtView::Block(Seq::empty())
                        },
                ),
            ),
            Stmt::Return(value) => StmtView::Return(value@),
            Stmt::Print(value) => StmtView::Print(value@),
            Stmt::Expression(value) => StmtView::Expression(value@),
        }
    }

    /// A copy of this statement.
    pub fn duplicate(&self) -> (copy: Stmt)
        ensures
            copy@ == self@,
        decreases self,
    {
        match self {
            Stmt::VarDeclaration(name, typing, is_const, value) => Stmt::VarDeclaration(
                name.clone(),
                *typing,
                *is_const,
                value.duplicate(),
            ),
            Stmt::FuncDeclaration(name, parameters, body) => Stmt::FuncDeclaration(
                name.clone(),
                duplicate_names(parameters),
                Box::new(body.duplicate()),
            ),
            Stmt::Block(stmts) => {
                let mut copies: Vec<Stmt> = Vec::new();
                let mut i: usize = 0;
                while i < stmts.len()
                    invariant
                        i <= stmts.len(),
                        copies@.len() == i,
                        self is Block,
                        self->Block_0 == *stmts,
                        forall|k: int| 0 <= k < i ==> (#[trigger] copies@[k])@ == stmts@[k]@,
                    decreases stmts.len() - i,
                {
                    copies.push(stmts[i].duplicate());
                    i += 1;
                }
                let copy = Stmt::Block(copies);
                assert(copy@->Block_0 =~= self@->Block_0);
                copy
            },
            Stmt::Return(value) => Stmt::Return(value.duplicate()),
            Stmt::Print(value) => Stmt::Print(value.duplicate()),
            Stmt::Expression(value) => Stmt::Expression(value.duplicate()),
        }
    }
}

impl Stmt {
    /// The value of a block is the block of its statements' values.
    pub proof fn lemma_block_view(stmts: Vec<Stmt>)
        ensures
            Stmt::Block(stmts)@ == StmtView::Block(stmts_view(stmts@)),
    {
        assert(Stmt::Block(stmts)@->Block_0 =~= stmts_view(stmts@));
    }
}

impl Clone for Stmt {
    fn clone(&self) -> (copy: Stmt)
        ensures
            copy@ == self@,
    {
        self.duplicate()
    }
}

impl View for Stmt {
    type V = StmtView;

    open spec fn view(&self) -> StmtView {
        self.model()
    }
}

/// The values of a sequence of statements, in order.
pub open spec fn stmts_view(stmts: Seq<Stmt>) -> Seq<StmtView> {
    Seq::new(stmts.len(), |i: int| stmts[i]@)
}

} // verus!
