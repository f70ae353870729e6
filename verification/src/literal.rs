//! The closed value type carried by tokens and leaf nodes: a variable
//! reference, an atom (symbolic constant), or a number.
//!
//! A number is carried as its source text: the scanner recognizes digit runs
//! but never emits a numeric token, so no numeric value is ever computed from
//! one in this front end.

use vstd::prelude::*;

verus! {

/// The mathematical model of a [`Literal`]: the same three cases over
/// character sequences.
pub enum LiteralView {
    Variable(Seq<char>),
    Atom(Seq<char>),
    Number(Seq<char>),
}

/// A literal value: a variable reference, an atom, or a number's source text.
#[derive(Debug)]
pub enum Literal {
    Variable(String),
    Atom(String),
    Number(String),
}

impl View for Literal {
    type V = LiteralView;

    open spec fn view(&self) -> LiteralView {
        match self {
            Literal::Variable(s) => LiteralView::Variable(s@),
            Literal::Atom(s) => LiteralView::Atom(s@),
            Literal::Number(s) => LiteralView::Number(s@),
        }
    }
}

impl Clone for Literal {
    fn clone(&self) -> (r: Self)
        ensures
            r@ == self@,
    {
        match self {
            Literal::Variable(s) => Literal::Variable(s.clone()),
            Literal::Atom(s) => Literal::Atom(s.clone()),
            Literal::Number(s) => Literal::Number(s.clone()),
        }
    }
}

} // verus!
