//! The abstract syntax tree: a closed set of node kinds over literals, and
//! the visitor seam where a future resolver attaches evaluation behaviour
//! without modifying the node types.

use crate::errors::PrologError;
use crate::literal::{Literal, LiteralView};
use vstd::prelude::*;

verus! {

// Grammar realized today:
//   program     -> rule* EOF
//   rule        -> unit_clause "."
//   unit_clause -> atom
//   atom        -> ATOM token whose literal is an atom
// Head/body clauses (`head ":-" tail`) and the arithmetic sub-grammar are
// recognized lexically but not yet parsed into nodes.

/// A leaf node wrapping one literal value.
pub struct LiteralObj {
    pub value: Literal,
}

impl View for LiteralObj {
    type V = LiteralView;

    open spec fn view(&self) -> LiteralView {
        self.value@
    }
}

impl LiteralObj {
    /// Wraps a literal value in a leaf node.
    pub fn new(value: Literal) -> (r: LiteralObj)
        ensures
            r.value == value,
    {
        LiteralObj { value }
    }
}

/// A fact: an atom followed by a clause terminator, with no body.
pub struct UnitClause {
    pub literal: LiteralObj,
}

impl View for UnitClause {
    type V = LiteralView;

    open spec fn view(&self) -> LiteralView {
        self.literal@
    }
}

impl UnitClause {
    /// Wraps a leaf node as a body-less clause.
    pub fn new(literal: LiteralObj) -> (r: UnitClause)
        ensures
            r.literal == literal,
    {
        UnitClause { literal }
    }
}

/// A program clause; only the body-less (fact) form is constructible today.
pub struct Rule {
    pub value: UnitClause,
}

impl View for Rule {
    type V = LiteralView;

    open spec fn view(&self) -> LiteralView {
        self.value@
    }
}

impl Rule {
    /// Wraps a unit clause as a program clause.
    pub fn new(value: UnitClause) -> (r: Rule)
        ensures
            r.value == value,
    {
        Rule { value }
    }
}

/// The evaluation interface of a future resolver: one method per node kind,
/// each yielding a literal or failing. This front end declares the seam and
/// leaves every implementation to its users.
pub trait Visitor {
    fn visit_literal_expr(&self, expr: &LiteralObj) -> Result<Literal, PrologError>;

    fn visit_unit_clause_expr(&self, expr: &UnitClause) -> Result<Literal, PrologError>;

    fn visit_rule_expr(&self, expr: &Rule) -> Result<Literal, PrologError>;
}

/// A node of any kind: the closed sum of the node types, dispatched
/// exhaustively by [`Expr::accept`].
pub enum Expr {
    Literal(LiteralObj),
    UnitClause(UnitClause),
    Rule(Rule),
}

impl Expr {
    /// Double dispatch: hands this node to the visitor method of its kind and
    /// yields that call's result. The result is a possible result of exactly
    /// that method, applied to this visitor and this node.
    pub fn accept<V: Visitor>(&self, visitor: &V) -> (r: Result<Literal, PrologError>)
        ensures
            (self matches Expr::Literal(e) ==> call_ensures(
                V::visit_literal_expr,
                (visitor, &e),
                r,
            )),
            (self matches Expr::UnitClause(e) ==> call_ensures(
                V::visit_unit_clause_expr,
                (visitor, &e),
                r,
            )),
            (self matches Expr::Rule(e) ==> call_ensures(V::visit_rule_expr, (visitor, &e), r)),
    {
        match self {
            Expr::Literal(e) => visitor.visit_literal_expr(e),
            Expr::UnitClause(e) => visitor.visit_unit_clause_expr(e),
            Expr::Rule(e) => visitor.visit_rule_expr(e),
        }
    }
}

} // verus!
