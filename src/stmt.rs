use vstd::prelude::*;

use crate::expr::Expr;
use crate::token::Token;
use crate::variant::Variant;

verus! {

/// `if condition { .. } else { .. }`.
#[derive(Debug)]
pub struct If {
    pub condition: Expr,
    pub then_branch: Stmt,
    pub else_branch: Option<Stmt>,
}

/// A function declaration.
#[derive(Debug)]
pub struct Function {
    pub name: Token,
    pub parameters: Vec<(Token, Variant)>,
    pub output: Option<Variant>,
    pub body: Stmt,
}

/// `return value;`.
#[derive(Debug)]
pub struct Return {
    pub value: Option<Expr>,
}

/// An infinite loop, left by `break`.
#[derive(Debug)]
pub struct Loop {
    pub body: Stmt,
}

#[derive(Debug)]
pub struct Break {}

#[derive(Debug)]
pub struct Continue {}

/// A variable binding with its type and an optional initializer.
#[derive(Debug)]
pub struct Let {
    pub name: Token,
    pub variant: Variant,
    pub initializer: Option<Expr>,
}

/// A named type alias.
#[derive(Debug)]
pub struct Type {
    pub name: Token,
    pub variant: Variant,
}

/// A braced sequence of statements.
#[derive(Debug)]
pub struct Block {
    pub statements: Vec<Stmt>,
}

/// `name = value;`.
#[derive(Debug)]
pub struct Assignment {
    pub name: Token,
    pub value: Expr,
}

/// An expression evaluated for its effect.
#[derive(Debug)]
pub struct Expression {
    pub expression: Expr,
}

/// A statement or declaration; each node owns its children.
#[derive(Debug)]
pub enum Stmt {
    If(Box<If>),
    Function(Box<Function>),
    Return(Box<Return>),
    Loop(Box<Loop>),
    Break(Box<Break>),
    Continue(Box<Continue>),
    Let(Box<Let>),
    Type(Box<Type>),
    Block(Box<Block>),
    Assignment(Box<Assignment>),
    Expression(Box<Expression>),
}

impl Stmt {
    pub fn new_if(condition: Expr, then_branch: Stmt, else_branch: Option<Stmt>) -> (r: Self)
        ensures
            r == Stmt::If(Box::new(If { condition, then_branch, else_branch })),
    {
        Stmt::If(Box::new(If { condition, then_branch, else_branch }))
    }

    pub fn new_function(
        name: Token,
        parameters: Vec<(Token, Variant)>,
        output: Option<Variant>,
        body: Stmt,
    ) -> (r: Self)
        ensures
            r == Stmt::Function(Box::new(Function { name, parameters, output, body })),
    {
        Stmt::Function(Box::new(Function { name, parameters, output, body }))
    }

    pub fn new_return(value: Option<Expr>) -> (r: Self)
        ensures
            r == Stmt::Return(Box::new(Return { value })),
    {
        Stmt::Return(Box::new(Return { value }))
    }

    pub fn new_loop(body: Stmt) -> (r: Self)
        ensures
            r == Stmt::Loop(Box::new(Loop { body })),
    {
        Stmt::Loop(Box::new(Loop { body }))
    }

    pub fn new_break() -> (r: Self)
        ensures
            r == Stmt::Break(Box::new(Break {  })),
    {
        Stmt::Break(Box::new(Break {  }))
    }

    pub fn new_continue() -> (r: Self)
        ensures
            r == Stmt::Continue(Box::new(Continue {  })),
    {
        Stmt::Continue(Box::new(Continue {  }))
    }

    pub fn new_let(name: Token, variant: Variant, initializer: Option<Expr>) -> (r: Self)
        ensures
            r == Stmt::Let(Box::new(Let { name, variant, initializer })),
    {
        Stmt::Let(Box::new(Let { name, variant, initializer }))
    }

    pub fn new_type(name: Token, variant: Variant) -> (r: Self)
        ensures
            r == Stmt::Type(Box::new(Type { name, variant })),
    {
        Stmt::Type(Box::new(Type { name, variant }))
    }

    pub fn new_block(statements: Vec<Stmt>) -> (r: Self)
        ensures
            r == Stmt::Block(Box::new(Block { statements })),
    {
        Stmt::Block(Box::new(Block { statements }))
    }

    pub fn new_assignment(name: Token, value: Expr) -> (r: Self)
        ensures
            r == Stmt::Assignment(Box::new(Assignment { name, value })),
    {
        Stmt::Assignment(Box::new(Assignment { name, value }))
    }

    pub fn new_expression(expression: Expr) -> (r: Self)
        ensures
            r == Stmt::Expression(Box::new(Expression { expression })),
    {
        Stmt::Expression(Box::new(Expression { expression }))
    }

    /// Hands this statement to the visitor method for its kind.
    pub fn accept<V: Visitor>(&self, visitor: &mut V) -> V::Result {
        match self {
            Stmt::If(stmt) => visitor.visit_if_stmt(stmt),
            Stmt::Function(stmt) => visitor.visit_function_stmt(stmt),
            Stmt::Return(stmt) => visitor.visit_return_stmt(stmt),
            Stmt::Loop(stmt) => visitor.visit_loop_stmt(stmt),
            Stmt::Break(stmt) => visitor.visit_break_stmt(stmt),
            Stmt::Continue(stmt) => visitor.visit_continue_stmt(stmt),
            Stmt::Let(stmt) => visitor.visit_let_stmt(stmt),
            Stmt::Type(stmt) => visitor.visit_type_stmt(stmt),
            Stmt::Block(stmt) => visitor.visit_block_stmt(stmt),
            Stmt::Assignment(stmt) => visitor.visit_assignment_stmt(stmt),
            Stmt::Expression(stmt) => visitor.visit_expression_stmt(stmt),
        }
    }
}

/// A pass over statements, one method per kind.
pub trait Visitor {
    type Result;

    fn visit_if_stmt(&mut self, stmt: &If) -> Self::Result;

    fn visit_function_stmt(&mut self, stmt: &Function) -> Self::Result;

    fn visit_return_stmt(&mut self, stmt: &Return) -> Self::Result;

    fn visit_loop_stmt(&mut self, stmt: &Loop) -> Self::Result;

    fn visit_break_stmt(&mut self, stmt: &Break) -> Self::Result;

    fn visit_continue_stmt(&mut self, stmt: &Continue) -> Self::Result;

    fn visit_let_stmt(&mut self, stmt: &Let) -> Self::Result;

    fn visit_type_stmt(&mut self, stmt: &Type) -> Self::Result;

    fn visit_block_stmt(&mut self, stmt: &Block) -> Self::Result;

    fn visit_assignment_stmt(&mut self, stmt: &Assignment) -> Self::Result;

    fn visit_expression_stmt(&mut self, stmt: &Expression) -> Self::Result;
}

} // verus!
