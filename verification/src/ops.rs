//! The operators of the language, on values.

use vstd::prelude::*;
use crate::ast::{BinOp, CompareOp, UnOp};
use crate::error::{Error, ErrorKind, fault};
use crate::host::{Exchange, Host, Recorder, extends, grows};
use crate::number::{compare_numbers, number_compared};
use crate::semantics::{Sem, sem_carry};
use crate::text::{compare_texts, joined, text_compared};
use crate::value::{Value, Variable};

verus! {

/// The outcome of comparing `left` with `right`.
///
/// Numbers compare with numbers and texts with texts, by all six operators.
/// Booleans compare with booleans for equality only. Nothing else compares.
pub open spec fn compared(op: CompareOp, left: Value, right: Value) -> Result<bool, ErrorKind> {
    match (left, right) {
        (Value::Number(a), Value::Number(b)) => Ok(number_compared(op, a, b)),
        (Value::Text(a), Value::Text(b)) => Ok(text_compared(op, a, b)),
        (Value::Bool(a), Value::Bool(b)) => match op {
            CompareOp::Equal => Ok(a == b),
            CompareOp::NotEqual => Ok(a != b),
            _ => Err(ErrorKind::InvalidOperator),
        },
        _ => Err(ErrorKind::InvalidOperands),
    }
}

/// Compares `left` with `right`.
pub fn compare_values(op: CompareOp, left: &Variable, right: &Variable) -> (r: Result<bool, Error>)
    ensures
        match compared(op, left@, right@) {
            Ok(b) => r == Ok::<bool, Error>(b),
            Err(k) => r matches Err(e) && e@ == fault(k),
        },
{
    match (left, right) {
        (Variable::Number(a), Variable::Number(b)) => Ok(compare_numbers(op, *a, *b)),
        (Variable::Text(a), Variable::Text(b)) => Ok(compare_texts(op, a, b)),
        (Variable::Bool(a), Variable::Bool(b)) => match op {
            CompareOp::Equal => Ok(*a == *b),
            CompareOp::NotEqual => Ok(*a != *b),
            _ => Err(Error::new(ErrorKind::InvalidOperator)),
        },
        _ => Err(Error::new(ErrorKind::InvalidOperands)),
    }
}

/// What an operator yields.
pub enum Outcome {
    /// This value.
    Value(Value),
    /// The number that the host computes of these two by this operator.
    Arithmetic(BinOp, u64, u64),
}

/// What an operator yields, before the host is asked.
#[derive(Debug)]
pub enum Plan {
    /// This value.
    Value(Variable),
    /// The number that the host computes of these two by this operator.
    Arithmetic(BinOp, u64, u64),
}

impl View for Plan {
    type V = Outcome;

    open spec fn view(&self) -> Outcome {
        match self {
            Plan::Value(v) => Outcome::Value(v@),
            Plan::Arithmetic(op, a, b) => Outcome::Arithmetic(*op, *a, *b),
        }
    }
}

/// Carries a plan out, as `sem_carry` says: a value is returned as it is;
/// arithmetic is asked of the host, and the number that it answers is
/// returned.
pub fn carry_out<H: Host>(host: &mut Recorder<H>, plan: Plan) -> (r: Variable)
    ensures
        grows(old(host).log@, final(host).log@),
        forall|longer: Seq<Exchange>| #[trigger]
            extends(final(host).log@, longer) ==> sem_carry(
                plan@,
                old(host).log@.len(),
                longer,
            ) == Sem::Done((r@, final(host).log@.len())),
{
    match plan {
        Plan::Value(v) => v,
        Plan::Arithmetic(op, a, b) => Variable::Number(host.arithmetic(op, a, b)),
    }
}

/// The outcome of `left op right`.
///
/// On numbers every operator is arithmetic, which is left to the host. On
/// booleans `+` is or, `*` is and, `-` is and-not and `**` is exclusive or.
/// On texts `+` joins. A text on the left wants a text on the right.
pub open spec fn combined(op: BinOp, left: Value, right: Value) -> Result<Outcome, ErrorKind> {
    match (left, right) {
        (Value::Number(a), Value::Number(b)) => Ok(Outcome::Arithmetic(op, a, b)),
        (Value::Bool(a), Value::Bool(b)) => match op {
            BinOp::Add => Ok(Outcome::Value(Value::Bool(a || b))),
            BinOp::Sub => Ok(Outcome::Value(Value::Bool(a && !b))),
            BinOp::Mul => Ok(Outcome::Value(Value::Bool(a && b))),
            BinOp::Pow => Ok(Outcome::Value(Value::Bool(a != b))),
            _ => Err(ErrorKind::InvalidOperator),
        },
        (Value::Text(a), Value::Text(b)) => match op {
            BinOp::Add => Ok(Outcome::Value(Value::Text(a + b))),
            _ => Err(ErrorKind::InvalidOperator),
        },
        (Value::Text(_), _) => Err(ErrorKind::ExpectedTextRight),
        _ => Err(ErrorKind::InvalidOperands),
    }
}

/// Plans a binary operator.
pub fn plan_binop(op: BinOp, left: &Variable, right: &Variable) -> (r: Result<Plan, Error>)
    ensures
        match combined(op, left@, right@) {
            Ok(o) => r matches Ok(p) && p@ == o,
            Err(k) => r matches Err(e) && e@ == fault(k),
        },
{
    match (left, right) {
        (Variable::Number(a), Variable::Number(b)) => Ok(Plan::Arithmetic(op, *a, *b)),
        (Variable::Bool(a), Variable::Bool(b)) => match op {
            BinOp::Add => Ok(Plan::Value(Variable::Bool(*a || *b))),
            BinOp::Sub => Ok(Plan::Value(Variable::Bool(*a && !*b))),
            BinOp::Mul => Ok(Plan::Value(Variable::Bool(*a && *b))),
            BinOp::Pow => Ok(Plan::Value(Variable::Bool(*a != *b))),
            _ => Err(Error::new(ErrorKind::InvalidOperator)),
        },
        (Variable::Text(a), Variable::Text(b)) => match op {
            BinOp::Add => Ok(Plan::Value(Variable::Text(joined(a.as_str(), b.as_str())))),
            _ => Err(Error::new(ErrorKind::InvalidOperator)),
        },
        (Variable::Text(_), _) => Err(Error::new(ErrorKind::ExpectedTextRight)),
        _ => Err(Error::new(ErrorKind::InvalidOperands)),
    }
}

/// The outcome of a unary operator: the negation of a boolean.
pub open spec fn negated(op: UnOp, v: Value) -> Result<Value, ErrorKind> {
    match v {
        Value::Bool(b) => Ok(Value::Bool(!b)),
        _ => Err(ErrorKind::ExpectedBool),
    }
}

/// Applies a unary operator.
pub fn unop_value(op: UnOp, v: &Variable) -> (r: Result<Variable, Error>)
    ensures
        match negated(op, v@) {
            Ok(x) => r matches Ok(y) && y@ == x,
            Err(k) => r matches Err(e) && e@ == fault(k),
        },
{
    match v {
        Variable::Bool(b) => match op {
            UnOp::Neg => Ok(Variable::Bool(!*b)),
        },
        _ => Err(Error::new(ErrorKind::ExpectedBool)),
    }
}

} // verus!
