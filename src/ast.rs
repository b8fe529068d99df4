//! The syntax tree: operators, expressions and statements.
use vstd::prelude::*;

verus! {

/// An operator of the language: binary ones, then unary ones.
#[derive(Debug, Clone, Copy, PartialEq, Eq, Structural)]
pub enum Operator {
    Equals,
    NotEquals,
    GreaterThan,
    GreaterEquals,
    LessThan,
    LessEquals,
    Add,
    Subtract,
    Multiply,
    Divide,
    Not,
    UnaryMinus,
}

/// An expression. `N` is the type of number literals.
#[derive(Debug, PartialEq)]
pub enum Expr<N> {
    Nil,
    Identifier(String),
    NumberLiteral(N),
    StringLiteral(String),
    BooleanLiteral(bool),
    UnaryOp(Operator, Box<Expr<N>>),
    BinaryOp(Operator, Box<Expr<N>>, Box<Expr<N>>),
}

/// A statement; a program is a sequence of them.
#[derive(Debug, PartialEq)]
pub enum Stmt<N> {
    /// Evaluate an expression; its value is the statement's result.
    ExprStmt(Expr<N>),
    /// Evaluate an expression and hand its value out to be printed.
    Print(Expr<N>),
    /// Evaluate an expression and bind a name to its value.
    Let(String, Expr<N>),
}

} // verus!
