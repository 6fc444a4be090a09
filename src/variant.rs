use vstd::prelude::*;

use crate::token::Token;

verus! {

/// A nominal type annotation such as `Number`.
#[derive(Debug)]
pub struct Literal {
    pub name: Token,
}

/// A function type annotation: parameter types and an optional output type.
#[derive(Debug)]
pub struct Function {
    pub parameters: Vec<Variant>,
    pub output: Option<Variant>,
}

/// A type annotation.
#[derive(Debug)]
pub enum Variant {
    Literal(Box<Literal>),
    Function(Box<Function>),
}

impl Variant {
    pub fn new_literal(name: Token) -> (r: Self)
        ensures
            r == Variant::Literal(Box::new(Literal { name })),
    {
        Variant::Literal(Box::new(Literal { name }))
    }

    pub fn new_function(parameters: Vec<Variant>, output: Option<Variant>) -> (r: Self)
        ensures
            r == Variant::Function(Box::new(Function { parameters, output })),
    {
        Variant::Function(Box::new(Function { parameters, output }))
    }

    /// Hands this annotation to the visitor method for its kind.
    pub fn accept<V: Visitor>(&self, visitor: &mut V) -> V::Result {
        match self {
            Variant::Literal(variant) => visitor.visit_literal_variant(variant),
            Variant::Function(variant) => visitor.visit_function_variant(variant),
        }
    }
}

/// A pass over type annotations, one method per kind.
pub trait Visitor {
    type Result;

    fn visit_literal_variant(&mut self, variant: &Literal) -> Self::Result;

    fn visit_function_variant(&mut self, variant: &Function) -> Self::Result;
}

} // verus!
