use vstd::prelude::*;

verus! {

/// A literal value as the parser produces it. A decimal literal is held as
/// the bit pattern of its IEEE 754 double.
#[derive(Debug, PartialEq, Clone)]
pub enum Atom {
    Integer(i64),
    Float(u64),
    String(String),
    Bool(bool),
}

/// The mathematical value of an [`Atom`].
pub enum AtomView {
    Integer(i64),
    Float(u64),
    String(Seq<char>),
    Bool(bool),
}

impl View for Atom {
    type V = AtomView;

    open spec fn view(&self) -> AtomView {
        match self {
            Atom::Integer(i) => AtomView::Integer(*i),
            Atom::Float(bits) => AtomView::Float(*bits),
            Atom::String(s) => AtomView::String(s@),
            Atom::Bool(b) => AtomView::Bool(*b),
        }
    }
}

impl Atom {
    /// A copy of this literal.
    pub fn duplicate(&self) -> (atom: Atom)
        ensures
            atom@ == self@,
    {
        match self {
            Atom::Integer(i) => Atom::Integer(*i),
            Atom::Float(bits) => Atom::Float(*bits),
            Atom::String(s) => Atom::String(s.clone()),
            Atom::Bool(b) => Atom::Bool(*b),
        }
    }
}

} // verus!
