//! The values that evaluation produces and the errors it reports.

use vstd::prelude::*;
use crate::ast::stmt::{Stmt, StmtView, names_view, duplicate_names};

verus! {

/// A runtime value. `Block` and `Return` wrap the result of a block and of a
/// `return` statement; a decimal number is held as the bit pattern of its
/// IEEE 754 double.
#[derive(Debug, PartialEq)]
pub enum RuntimeVal {
    Int(i64),
    Float(u64),
    Bool(bool),
    String(String),
    /// Name, parameter names, body.
    Func(String, Vec<String>, Stmt),
    Block(Box<RuntimeVal>),
    Return(Box<RuntimeVal>),
    Undefined,
}

/// The mathematical value of a [`RuntimeVal`].
pub enum ValueView {
    Int(i64),
    Float(u64),
    Bool(bool),
    String(Seq<char>),
    Func(Seq<char>, Seq<Seq<char>>, StmtView),
    Block(Box<ValueView>),
    Return(Box<ValueView>),
    Undefined,
}

impl RuntimeVal {
    /// The mathematical value of this runtime value.
    pub open spec fn model(self) -> ValueView
        decreases self,
    {
        match self {
            RuntimeVal::Int(i) => ValueView::Int(i),
            RuntimeVal::Float(bits) => ValueView::Float(bits),
            RuntimeVal::Bool(b) => ValueView::Bool(b),
            RuntimeVal::String(s) => ValueView::String(s@),
            RuntimeVal::Func(name, parameters, body) => ValueView::Func(
                name@,
                names_view(parameters@),
                body@,
            ),
            RuntimeVal::Block(inner) => ValueView::Block(Box::new(inner.model())),
            RuntimeVal::Return(inner) => ValueView::Return(Box::new(inner.model())),
            RuntimeVal::Undefined => ValueView::Undefined,
        }
    }

    /// A copy of this value.
    pub fn duplicate(&self) -> (copy: RuntimeVal)
        ensures
            copy@ == self@,
        decreases self,
    {
        match self {
            RuntimeVal::Int(i) => RuntimeVal::Int(*i),
            RuntimeVal::Float(bits) => RuntimeVal::Float(*bits),
            RuntimeVal::Bool(b) => RuntimeVal::Bool(*b),
            RuntimeVal::String(s) => RuntimeVal::String(s.clone()),
            RuntimeVal::Func(name, parameters, body) => RuntimeVal::Func(
                name.clone(),
                duplicate_names(parameters),
                body.duplicate(),
            ),
            RuntimeVal::Block(inner) => RuntimeVal::Block(Box::new(inner.duplicate())),
            RuntimeVal::Return(inner) => RuntimeVal::Return(Box::new(inner.duplicate())),
            RuntimeVal::Undefined => RuntimeVal::Undefined,
        }
    }
}

impl Clone for RuntimeVal {
    fn clone(&self) -> (copy: RuntimeVal)
        ensures
            copy@ == self@,
    {
        self.duplicate()
    }
}

impl View for RuntimeVal {
    type V = ValueView;

    open spec fn view(&self) -> ValueView {
        self.model()
    }
}

/// What can go wrong while a program is evaluated. Where a name is at
/// fault, the error carries it.
#[derive(Debug, PartialEq, Eq)]
pub enum RuntimeError {
    ConstantReassignment(String),
    VarRedeclaration(String),
    FuncRedeclaration(String),
    InvalidOperandType,
    DivisionByZero,
    UndefinedVariable(String),
    UndefinedFunction(String),
    InvalidFuncCallParametersCount(String),
    InvalidType,
}

/// The mathematical value of a [`RuntimeError`].
pub enum ErrorView {
    ConstantReassignment(Seq<char>),
    VarRedeclaration(Seq<char>),
    FuncRedeclaration(Seq<char>),
    InvalidOperandType,
    DivisionByZero,
    UndefinedVariable(Seq<char>),
    UndefinedFunction(Seq<char>),
    InvalidFuncCallParametersCount(Seq<char>),
    InvalidType,
}

impl View for RuntimeError {
    type V = ErrorView;

    open spec fn view(&self) -> ErrorView {
        match self {
            RuntimeError::ConstantReassignment(name) => ErrorView::ConstantReassignment(name@),
            RuntimeError::VarRedeclaration(name) => ErrorView::VarRedeclaration(name@),
            RuntimeError::FuncRedeclaration(name) => ErrorView::FuncRedeclaration(name@),
            RuntimeError::InvalidOperandType => ErrorView::InvalidOperandType,
            RuntimeError::DivisionByZero => ErrorView::DivisionByZero,
            RuntimeError::UndefinedVariable(name) => ErrorView::UndefinedVariable(name@),
            RuntimeError::UndefinedFunction(name) => ErrorView::UndefinedFunction(name@),
            RuntimeError::InvalidFuncCallParametersCount(name) =>
                ErrorView::InvalidFuncCallParametersCount(name@),
            RuntimeError::InvalidType => ErrorView::InvalidType,
        }
    }
}

/// The view of an evaluation result: the value's view or the error's.
pub open spec fn result_view(result: Result<RuntimeVal, RuntimeError>) -> Result<
    ValueView,
    ErrorView,
> {
    match result {
        Ok(value) => Ok(value@),
        Err(error) => Err(error@),
    }
}

} // verus!
