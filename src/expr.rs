use vstd::prelude::*;

use crate::token::Token;
use crate::value::Value;

verus! {

/// `left && right` or `left || right`.
#[derive(Debug)]
pub struct Logical {
    pub left: Expr,
    pub operator: Token,
    pub right: Expr,
}

/// An arithmetic, comparison or equality operation.
#[derive(Debug)]
pub struct Binary {
    pub left: Expr,
    pub operator: Token,
    pub right: Expr,
}

/// `-right` or `!right`.
#[derive(Debug)]
pub struct Unary {
    pub operator: Token,
    pub right: Expr,
}

/// A call of `callee` on the arguments, in order.
#[derive(Debug)]
pub struct Call {
    pub callee: Expr,
    pub arguments: Vec<Expr>,
}

/// A parenthesized expression.
#[derive(Debug)]
pub struct Grouping {
    pub expression: Expr,
}

/// A reference to a name.
#[derive(Debug)]
pub struct Variable {
    pub name: Token,
}

/// A constant.
#[derive(Debug)]
pub struct Literal {
    pub value: Value,
}

/// An expression; each node owns its children.
#[derive(Debug)]
pub enum Expr {
    Logical(Box<Logical>),
    Binary(Box<Binary>),
    Unary(Box<Unary>),
    Call(Box<Call>),
    Grouping(Box<Grouping>),
    Variable(Box<Variable>),
    Literal(Box<Literal>),
}

impl Expr {
    pub fn new_logical(left: Expr, operator: Token, right: Expr) -> (r: Self)
        ensures
            r == Expr::Logical(Box::new(Logical { left, operator, right })),
    {
        Expr::Logical(Box::new(Logical { left, operator, right }))
    }

    pub fn new_binary(left: Expr, operator: Token, right: Expr) -> (r: Self)
        ensures
            r == Expr::Binary(Box::new(Binary { left, operator, right })),
    {
        Expr::Binary(Box::new(Binary { left, operator, right }))
    }

    pub fn new_unary(operator: Token, right: Expr) -> (r: Self)
        ensures
            r == Expr::Unary(Box::new(Unary { operator, right })),
    {
        Expr::Unary(Box::new(Unary { operator, right }))
    }

    pub fn new_call(callee: Expr, arguments: Vec<Expr>) -> (r: Self)
        ensures
            r == Expr::Call(Box::new(Call { callee, arguments })),
    {
        Expr::Call(Box::new(Call { callee, arguments }))
    }

    pub fn new_grouping(expression: Expr) -> (r: Self)
        ensures
            r == Expr::Grouping(Box::new(Grouping { expression })),
    {
        Expr::Grouping(Box::new(Grouping { expression }))
    }

    pub fn new_variable(name: Token) -> (r: Self)
        ensures
            r == Expr::Variable(Box::new(Variable { name })),
    {
        Expr::Variable(Box::new(Variable { name }))
    }

    pub fn new_literal(value: Value) -> (r: Self)
        ensures
            r == Expr::Literal(Box::new(Literal { value })),
    {
        Expr::Literal(Box::new(Literal { value }))
    }

    /// Hands this expression to the visitor method for its kind.
    pub fn accept<V: Visitor>(&self, visitor: &mut V) -> V::Result {
        match self {
            Expr::Logical(expr) => visitor.visit_logical_expr(expr),
            Expr::Binary(expr) => visitor.visit_binary_expr(expr),
            Expr::Unary(expr) => visitor.visit_unary_expr(expr),
            Expr::Call(expr) => visitor.visit_call_expr(expr),
            Expr::Grouping(expr) => visitor.visit_grouping_expr(expr),
            Expr::Variable(expr) => visitor.visit_variable_expr(expr),
            Expr::Literal(expr) => visitor.visit_literal_expr(expr),
        }
    }
}

/// A pass over expressions, one method per kind.
pub trait Visitor {
    type Result;

    fn visit_logical_expr(&mut self, expr: &Logical) -> Self::Result;

    fn visit_binary_expr(&mut self, expr: &Binary) -> Self::Result;

    fn visit_unary_expr(&mut self, expr: &Unary) -> Self::Result;

    fn visit_call_expr(&mut self, expr: &Call) -> Self::Result;

    fn visit_grouping_expr(&mut self, expr: &Grouping) -> Self::Result;

    fn visit_variable_expr(&mut self, expr: &Variable) -> Self::Result;

    fn visit_literal_expr(&mut self, expr: &Literal) -> Self::Result;
}

} // verus!
