//! The syntax tree that the evaluator walks.
//!
//! Numbers are IEEE-754 binary64 values held by their bit pattern.

use vstd::prelude::*;

verus! {

/// A user-defined function.
#[derive(Debug)]
pub struct Function {
    pub name: String,
    pub args: Vec<Arg>,
    pub block: Block,
    /// Whether the function yields a value.
    pub returns: bool,
}

/// A parameter of a function.
#[derive(Debug)]
pub struct Arg {
    pub name: String,
}

/// A sequence of expressions with a scope of its own.
#[derive(Debug)]
pub struct Block {
    pub expressions: Vec<Expression>,
}

#[derive(Debug)]
pub enum Expression {
    /// A number literal, by its bit pattern.
    Number(u64),
    Text(String),
    Bool(bool),
    /// An object literal: keys with the expressions of their values.
    Object(Vec<(String, Expression)>),
    /// An array literal.
    Array(Vec<Expression>),
    Item(Item),
    UnOp(Box<UnOpExpression>),
    BinOp(Box<BinOpExpression>),
    Compare(Box<Compare>),
    Assign(Box<Assign>),
    Call(Call),
    If(Box<If>),
    For(Box<For>),
    Block(Block),
    Return(Box<Expression>),
    Break(Option<String>),
    Continue(Option<String>),
}

/// A local variable, followed by the path into it.
#[derive(Debug)]
pub struct Item {
    pub name: String,
    pub ids: Vec<Id>,
}

/// One segment of a path.
#[derive(Debug)]
pub enum Id {
    /// A literal key of an object.
    Text(String),
    /// A literal index of an array, by its bit pattern.
    Number(u64),
    /// A bracketed expression.
    Expression(Expression),
}

#[derive(Debug, Clone, Copy, PartialEq, Eq, Structural)]
pub enum UnOp {
    /// Boolean negation.
    Neg,
}

#[derive(Debug, Clone, Copy, PartialEq, Eq, Structural)]
pub enum BinOp {
    Add,
    Sub,
    Mul,
    Div,
    Rem,
    Pow,
}

#[derive(Debug, Clone, Copy, PartialEq, Eq, Structural)]
pub enum CompareOp {
    Less,
    LessOrEqual,
    Greater,
    GreaterOrEqual,
    Equal,
    NotEqual,
}

#[derive(Debug, Clone, Copy, PartialEq, Eq, Structural)]
pub enum AssignOp {
    /// `:=`, which declares a local.
    Declare,
    /// `=`, which overwrites.
    Store,
    Add,
    Sub,
    Mul,
    Div,
    Rem,
    Pow,
}

#[derive(Debug)]
pub struct UnOpExpression {
    pub op: UnOp,
    pub expr: Expression,
}

#[derive(Debug)]
pub struct BinOpExpression {
    pub op: BinOp,
    pub left: Expression,
    pub right: Expression,
}

#[derive(Debug)]
pub struct Compare {
    pub op: CompareOp,
    pub left: Expression,
    pub right: Expression,
}

#[derive(Debug)]
pub struct Assign {
    pub op: AssignOp,
    pub left: Expression,
    pub right: Expression,
}

#[derive(Debug)]
pub struct Call {
    pub name: String,
    pub args: Vec<Expression>,
}

#[derive(Debug)]
pub struct If {
    pub cond: Expression,
    pub true_block: Block,
    pub else_block: Option<Block>,
}

#[derive(Debug)]
pub struct For {
    pub label: Option<String>,
    pub init: Expression,
    pub cond: Expression,
    pub step: Expression,
    pub block: Block,
}

} // verus!
