//! The abstract syntax tree: expressions, statements, and a single
//! function declaration, each node exclusively owning its children.
//!
//! Beside each executable node type stands its mathematical model
//! (`SpecExpr`, `SpecStmt`, `SpecFunction`), in which identifier text is a
//! character sequence and numbers are unbounded integers; `model` maps a
//! tree to its model. The parser's and transpiler's contracts are stated
//! over these models.

use vstd::prelude::*;

verus! {

/// The binary arithmetic operators of the grammar.
#[derive(Debug, Clone, Copy, PartialEq, Eq, Structural)]
pub enum BinaryOp {
    Add,
    Sub,
    Mul,
    Div,
}

/// An expression: a numeric literal, an unresolved variable reference, or
/// a binary node exclusively owning both operand subtrees.
#[derive(Debug, PartialEq, Eq)]
pub enum Expr {
    Number(i64),
    Variable(String),
    Binary { left: Box<Expr>, op: BinaryOp, right: Box<Expr> },
}

/// A statement: a `let` declaration with its initializer, or a `return`.
#[derive(Debug, PartialEq, Eq)]
pub enum Stmt {
    Let { name: String, value: Expr },
    Return(Expr),
}

/// A function declaration: name, verbatim return-type text, and the body
/// statements in source order.
#[derive(Debug, PartialEq, Eq)]
pub struct Function {
    pub name: String,
    pub return_type: String,
    pub body: Vec<Stmt>,
}

/// The model of an expression: names as character sequences, literals as
/// unbounded integers.
pub enum SpecExpr {
    Number(int),
    Variable(Seq<char>),
    Binary { left: Box<SpecExpr>, op: BinaryOp, right: Box<SpecExpr> },
}

/// The model of a statement.
pub enum SpecStmt {
    Let { name: Seq<char>, value: SpecExpr },
    Return(SpecExpr),
}

/// The model of a function declaration.
pub struct SpecFunction {
    pub name: Seq<char>,
    pub return_type: Seq<char>,
    pub body: Seq<SpecStmt>,
}

impl Expr {
    pub open spec fn model(&self) -> SpecExpr
        decreases self,
    {
        match self {
            Expr::Number(n) => SpecExpr::Number(*n as int),
            Expr::Variable(name) => SpecExpr::Variable(name@),
            Expr::Binary { left, op, right } => SpecExpr::Binary {
                left: Box::new(left.model()),
                op: *op,
                right: Box::new(right.model()),
            },
        }
    }
}

impl Stmt {
    pub open spec fn model(&self) -> SpecStmt {
        match self {
            Stmt::Let { name, value } => SpecStmt::Let { name: name@, value: value.model() },
            Stmt::Return(e) => SpecStmt::Return(e.model()),
        }
    }
}

impl Function {
    pub open spec fn model(&self) -> SpecFunction {
        SpecFunction {
            name: self.name@,
            return_type: self.return_type@,
            body: self.body@.map_values(|s: Stmt| s.model()),
        }
    }
}

} // verus!
