//! The abstract syntax tree that the lowering pipeline consumes.
//!
//! A compilation unit holds one function definition, whose body is one block
//! with one statement: the return of an expression. Expressions are integer
//! literals combined by unary and binary operators.

use vstd::prelude::*;

verus! {

/// A prefix operator of the source language.
#[derive(Clone, Copy, Debug, PartialEq, Eq, Structural)]
pub enum UnaryOp {
    /// `+e`: the operand itself.
    Plus,
    /// `-e`: arithmetic negation.
    Minus,
    /// `!e`: logical negation.
    Not,
}

/// An infix operator of the source language.
///
/// The shift operators are part of the syntax but have no lowering yet.
#[derive(Clone, Copy, Debug, PartialEq, Eq, Structural)]
pub enum BinaryOp {
    Add,
    Sub,
    Mul,
    Div,
    Mod,
    Less,
    Greater,
    LessEqual,
    GreaterEqual,
    Equal,
    NotEqual,
    And,
    Or,
    ShiftLeft,
    ShiftRight,
}

/// An integer literal.
#[derive(Clone, Copy, Debug, PartialEq, Eq, Structural)]
pub struct Number {
    pub value: i32,
}

/// An expression tree.
#[derive(Debug, PartialEq, Eq)]
pub enum Exp {
    Number { value: Number },
    UnaryExp { unary_op: UnaryOp, exp: Box<Exp> },
    BinaryExp { binary_op: BinaryOp, lhs: Box<Exp>, rhs: Box<Exp> },
}

/// A statement: `return exp;`.
#[derive(Debug, PartialEq, Eq)]
pub struct Stmt {
    pub exp: Exp,
}

/// A block: one statement between braces.
#[derive(Debug, PartialEq, Eq)]
pub struct Block {
    pub stmt: Stmt,
}

/// The return type of a function.
#[derive(Clone, Copy, Debug, PartialEq, Eq, Structural)]
pub enum FuncType {
    /// A 32-bit signed integer.
    Int,
}

/// An identifier as written in the source.
#[derive(Debug, PartialEq, Eq)]
pub struct Ident {
    pub name: String,
}

/// A function definition without parameters.
#[derive(Debug, PartialEq, Eq)]
pub struct FuncDef {
    pub func_type: FuncType,
    pub ident: Ident,
    pub block: Block,
}

/// The root of the tree: one function definition.
#[derive(Debug, PartialEq, Eq)]
pub struct CompUnit {
    pub func_def: FuncDef,
}

} // verus!
