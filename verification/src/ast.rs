//! The syntax tree that the interpreter evaluates.
//!
//! Number literals hold the IEEE-754 binary64 bit pattern of their value:
//! the evaluator never computes with numbers itself, it hands them to the
//! host (see `host`).

use std::rc::Rc;
use vstd::prelude::*;

verus! {

/// Binary operators.
#[derive(Debug, Clone, Copy, PartialEq, Eq, Structural)]
pub enum BinaryOperator {
    Add,
    Subtract,
    Multiply,
    Divide,
    Modulo,
    Equal,
    NotEqual,
    LessThan,
    LessEqual,
    GreaterThan,
    GreaterEqual,
    And,
    Or,
}

/// Unary operators.
#[derive(Debug, Clone, Copy, PartialEq, Eq, Structural)]
pub enum UnaryOperator {
    Negate,
    Not,
}

/// Operators of compound assignments (`+=`, `-=`, `*=`, `/=`).
#[derive(Debug, Clone, Copy, PartialEq, Eq, Structural)]
pub enum CompoundOp {
    Add,
    Subtract,
    Multiply,
    Divide,
}

/// A piece of an interpolated string: literal text or an embedded expression.
#[derive(Debug)]
pub enum StringPart {
    Literal(String),
    Expression(Expr),
}

/// Expressions.
#[allow(inconsistent_fields)]
#[derive(Debug)]
pub enum Expr {
    /// A number literal, by the bit pattern of its binary64 value.
    NumberLiteral { value: u64 },
    StringLiteral { value: String },
    BooleanLiteral { value: bool },
    NullLiteral,
    Identifier { name: String },
    BinaryOp { left: Box<Expr>, op: BinaryOperator, right: Box<Expr> },
    UnaryOp { op: UnaryOperator, operand: Box<Expr> },
    FunctionCall { callee: Box<Expr>, args: Vec<Expr> },
    Index { object: Box<Expr>, index: Box<Expr> },
    MemberAccess { object: Box<Expr>, member: String },
    ListLiteral { elements: Vec<Expr> },
    DictLiteral { entries: Vec<(Expr, Expr)> },
    StringInterpolation { parts: Vec<StringPart> },
    MethodCall { object: Box<Expr>, method: String, args: Vec<Expr> },
    New { class_name: String, args: Vec<Expr> },
}

/// Statements. A function body is shared (`Rc`) between its definition and
/// the function values made from it.
#[allow(inconsistent_fields)]
#[derive(Debug)]
pub enum Statement {
    Assignment { name: String, value: Expr },
    FunctionDef { name: String, params: Vec<String>, body: Rc<Vec<Statement>> },
    If { condition: Expr, then_body: Vec<Statement>, else_body: Option<Vec<Statement>> },
    While { condition: Expr, body: Vec<Statement> },
    For { variable: String, iterable: Expr, body: Vec<Statement> },
    Return { value: Option<Expr> },
    Import { module: String },
    Print { value: Expr },
    ExprStatement { expr: Expr },
    Break,
    Continue,
    Throw { value: Expr },
    TryCatch { try_body: Vec<Statement>, catch_var: String, catch_body: Vec<Statement> },
    CompoundAssignment { name: String, op: CompoundOp, value: Expr },
    ClassDef { name: String, methods: Vec<Statement> },
}

/// A whole program.
#[derive(Debug)]
pub struct Program {
    pub statements: Vec<Statement>,
}

} // verus!
