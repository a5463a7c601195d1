use vstd::prelude::*;

pub mod expressions;

use crate::types::nodes::expressions::Arithmetic;

verus! {

/// The nodes of the syntax tree that the transformers turn into assembly: a
/// number, kept as written, a reference to a variable, an operation on two
/// nodes, a call of a function with arguments, and a return of a value.
#[derive(Debug, PartialEq)]
pub enum Node {
    Number(String),
    VariableReference(String),
    Operation { operator: Arithmetic, a: Box<Node>, b: Box<Node> },
    FunctionCall { name: String, arguments: Vec<Node> },
    Return(Box<Node>),
}

/// The types a value of the language can have.
#[derive(Debug, Clone, PartialEq)]
pub enum Type {
    Int,
    Void,
    Char,
    String,
    Object(String),
}

} // verus!
