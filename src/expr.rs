use vstd::prelude::*;
use crate::token::{Token, TokenLiteral};

verus! {

/// An expression tree. Each node owns its children.
pub enum Expr {
    Binary(Binary),
    Grouping(Grouping),
    Literal(Literal),
    Unary(Unary),
}

pub struct Binary {
    pub left: Box<Expr>,
    pub operator: Token,
    pub right: Box<Expr>,
}

pub struct Grouping {
    pub expression: Box<Expr>,
}

pub struct Literal {
    pub value: TokenLiteral,
}

pub struct Unary {
    pub operator: Token,
    pub right: Box<Expr>,
}

impl Binary {
    pub fn new(left: Expr, operator: Token, right: Expr) -> (r: Expr)
        ensures
            r == Expr::Binary(Binary { left: Box::new(left), operator, right: Box::new(right) }),
    {
        Expr::Binary(Binary { left: Box::new(left), operator, right: Box::new(right) })
    }
}

impl Grouping {
    pub fn new(expression: Expr) -> (r: Expr)
        ensures
            r == Expr::Grouping(Grouping { expression: Box::new(expression) }),
    {
        Expr::Grouping(Grouping { expression: Box::new(expression) })
    }
}

impl Literal {
    pub fn new(value: TokenLiteral) -> (r: Expr)
        ensures
            r == Expr::Literal(Literal { value }),
    {
        Expr::Literal(Literal { value })
    }
}

impl Unary {
    pub fn new(operator: Token, right: Expr) -> (r: Expr)
        ensures
            r == Expr::Unary(Unary { operator, right: Box::new(right) }),
    {
        Expr::Unary(Unary { operator, right: Box::new(right) })
    }
}

/// Every number literal in the tree is well formed.
pub open spec fn expr_wf(e: Expr) -> bool
    decreases e,
{
    match e {
        Expr::Binary(b) => expr_wf(*b.left) && expr_wf(*b.right),
        Expr::Grouping(g) => expr_wf(*g.expression),
        Expr::Literal(l) => l.value.wf(),
        Expr::Unary(u) => expr_wf(*u.right),
    }
}

} // verus!
