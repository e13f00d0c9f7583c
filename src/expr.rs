use vstd::prelude::*;

use crate::literal::{Literal, LiteralView};

verus! {

/// A binary arithmetic operator.
#[derive(Clone, Copy, Debug, PartialEq, Eq, Structural)]
pub enum Op {
    /// `+`
    Add,
    /// `-`
    Sub,
    /// `*`
    Mul,
    /// `/`
    Div,
    /// `^`: the left operand raised to the power of the right one.
    Pow,
}

/// The operator that the character `c` denotes, if any.
pub open spec fn op_of(c: char) -> Option<Op> {
    if c == '+' {
        Some(Op::Add)
    } else if c == '-' {
        Some(Op::Sub)
    } else if c == '*' {
        Some(Op::Mul)
    } else if c == '/' {
        Some(Op::Div)
    } else if c == '^' {
        Some(Op::Pow)
    } else {
        None
    }
}

/// Reads an operator character.
pub fn operator_from_char(c: char) -> (r: Option<Op>)
    ensures
        r == op_of(c),
{
    match c {
        '+' => Some(Op::Add),
        '-' => Some(Op::Sub),
        '*' => Some(Op::Mul),
        '/' => Some(Op::Div),
        '^' => Some(Op::Pow),
        _ => None,
    }
}

/// The mathematical content of an [`Expr`].
pub enum Term {
    Number(LiteralView),
    Apply(Op, Box<Term>, Box<Term>),
}

impl Term {
    /// Every literal in the term is well-formed.
    pub open spec fn wf(self) -> bool
        decreases self,
    {
        match self {
            Term::Number(l) => l.wf(),
            Term::Apply(_, a, b) => a.wf() && b.wf(),
        }
    }
}

/// An operand of the stack: a literal, or an operator applied to two
/// operands, the left one having been pushed first.
#[derive(Debug, PartialEq, Eq)]
pub enum Expr {
    Number(Literal),
    Apply(Op, Box<Expr>, Box<Expr>),
}

impl View for Expr {
    type V = Term;

    open spec fn view(&self) -> Term
        decreases self,
    {
        match self {
            Expr::Number(l) => Term::Number(l@),
            Expr::Apply(op, a, b) => Term::Apply(*op, Box::new((**a).view()), Box::new((**b).view())),
        }
    }
}

} // verus!
