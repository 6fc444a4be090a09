pub mod compiler;
pub mod error;
pub mod expr;
pub mod generator;
pub mod kind;
pub mod parser;
pub mod scanner;
pub mod stmt;
pub mod token;
pub mod value;
pub mod variant;
