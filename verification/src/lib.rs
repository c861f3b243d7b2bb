pub mod span;
pub mod diagnostic;
pub mod token;
pub mod ast;
pub mod ast_copy;
pub mod parser;
pub mod text;

pub mod project;
pub mod monomorphize;
