//! The assignment engine: what a slot holds after an assignment.

use vstd::prelude::*;
use crate::ast::{AssignOp, BinOp};
use crate::error::{Error, ErrorKind, fault};
use crate::host::{Exchange, Host, Recorder, extends, grows};
use crate::ops::{Outcome, Plan, carry_out};
use crate::place::{read, slot_at, slot_put, store};
use crate::semantics::{Sem, sem_commit};
use crate::text::joined;
use crate::value::{Place, PlaceValue, Value, Variable, models, resolve, resolved};

verus! {

/// The arithmetic that a compound assignment operator stands for.
pub open spec fn arithmetic_of(op: AssignOp) -> Option<BinOp> {
    match op {
        AssignOp::Add => Some(BinOp::Add),
        AssignOp::Sub => Some(BinOp::Sub),
        AssignOp::Mul => Some(BinOp::Mul),
        AssignOp::Div => Some(BinOp::Div),
        AssignOp::Rem => Some(BinOp::Rem),
        AssignOp::Pow => Some(BinOp::Pow),
        _ => None,
    }
}

/// The arithmetic that a compound assignment operator stands for.
pub fn arithmetic(op: AssignOp) -> (r: Option<BinOp>)
    ensures
        r == arithmetic_of(op),
{
    match op {
        AssignOp::Add => Some(BinOp::Add),
        AssignOp::Sub => Some(BinOp::Sub),
        AssignOp::Mul => Some(BinOp::Mul),
        AssignOp::Div => Some(BinOp::Div),
        AssignOp::Rem => Some(BinOp::Rem),
        AssignOp::Pow => Some(BinOp::Pow),
        _ => None,
    }
}

/// The failure of an assignment whose target is of another type than
/// `source`: it is named after the type of `source`.
pub open spec fn mismatch(source: Value) -> ErrorKind {
    match source {
        Value::Number(_) => ErrorKind::AssignToNumber,
        Value::Bool(_) => ErrorKind::AssignToBool,
        Value::Text(_) => ErrorKind::AssignToText,
        Value::Object(_) => ErrorKind::AssignToObject,
        Value::Array(_) => ErrorKind::AssignToArray,
        _ => ErrorKind::UnsupportedAssign,
    }
}

/// What the slot holds after `target op source`, for an updating operator.
///
/// The type of `source` decides. A number, a boolean, a text, an object or an
/// array may go into a slot that holds a value of the same type, or into an
/// empty return slot. Into an empty return slot only `=` assigns; into a slot
/// of the same type `=` assigns, the arithmetic operators work on numbers,
/// and `+=` appends to a text. Nothing else is assigned.
pub open spec fn assigned(
    op: AssignOp,
    target: Value,
    source: Value,
) -> Result<Outcome, ErrorKind> {
    if op == AssignOp::Declare {
        Err(ErrorKind::UnsupportedAssign)
    } else if !(source is Number || source is Bool || source is Text || source is Object
        || source is Array) {
        Err(ErrorKind::UnsupportedAssign)
    } else if target is Return {
        if op == AssignOp::Store {
            Ok(Outcome::Value(source))
        } else {
            Err(ErrorKind::ReturnHasNoValue)
        }
    } else {
        match (target, source) {
            (Value::Number(a), Value::Number(b)) => match arithmetic_of(op) {
                Some(o) => Ok(Outcome::Arithmetic(o, a, b)),
                None => Ok(Outcome::Value(source)),
            },
            (Value::Bool(_), Value::Bool(_)) => if op == AssignOp::Store {
                Ok(Outcome::Value(source))
            } else {
                Err(ErrorKind::UnsupportedAssign)
            },
            (Value::Text(a), Value::Text(b)) => if op == AssignOp::Store {
                Ok(Outcome::Value(source))
            } else if op == AssignOp::Add {
                Ok(Outcome::Value(Value::Text(a + b)))
            } else {
                Err(ErrorKind::UnsupportedAssign)
            },
            (Value::Object(_), Value::Object(_)) => if op == AssignOp::Store {
                Ok(Outcome::Value(source))
            } else {
                Err(ErrorKind::UnsupportedAssign)
            },
            (Value::Array(_), Value::Array(_)) => if op == AssignOp::Store {
                Ok(Outcome::Value(source))
            } else {
                Err(ErrorKind::UnsupportedAssign)
            },
            _ => Err(mismatch(source)),
        }
    }
}

fn mismatch_of(source: &Variable) -> (e: Error)
    ensures
        e@ == fault(mismatch(source@)),
{
    match source {
        Variable::Number(_) => Error::new(ErrorKind::AssignToNumber),
        Variable::Bool(_) => Error::new(ErrorKind::AssignToBool),
        Variable::Text(_) => Error::new(ErrorKind::AssignToText),
        Variable::Object(_) => Error::new(ErrorKind::AssignToObject),
        Variable::Array(_) => Error::new(ErrorKind::AssignToArray),
        _ => Error::new(ErrorKind::UnsupportedAssign),
    }
}

/// Plans what the slot that holds `target` will hold after `target op source`.
pub fn assign_value(op: AssignOp, target: &Variable, source: &Variable) -> (r: Result<Plan, Error>)
    ensures
        match assigned(op, target@, source@) {
            Ok(o) => r matches Ok(p) && p@ == o,
            Err(k) => r matches Err(e) && e@ == fault(k),
        },
{
    if let AssignOp::Declare = op {
        return Err(Error::new(ErrorKind::UnsupportedAssign));
    }
    match source {
        Variable::Return | Variable::StackRef(_) | Variable::RawRef(_) => {
            return Err(Error::new(ErrorKind::UnsupportedAssign));
        },
        _ => {},
    }
    let store = match op {
        AssignOp::Store => true,
        _ => false,
    };
    if let Variable::Return = target {
        if store {
            return Ok(Plan::Value(source.copy()));
        } else {
            return Err(Error::new(ErrorKind::ReturnHasNoValue));
        }
    }
    match (target, source) {
        (Variable::Number(a), Variable::Number(b)) => match arithmetic(op) {
            Some(o) => Ok(Plan::Arithmetic(o, *a, *b)),
            None => Ok(Plan::Value(Variable::Number(*b))),
        },
        (Variable::Bool(_), Variable::Bool(b)) => if store {
            Ok(Plan::Value(Variable::Bool(*b)))
        } else {
            Err(Error::new(ErrorKind::UnsupportedAssign))
        },
        (Variable::Text(a), Variable::Text(b)) => if store {
            Ok(Plan::Value(Variable::Text(b.clone())))
        } else if let AssignOp::Add = op {
            Ok(Plan::Value(Variable::Text(joined(a.as_str(), b.as_str()))))
        } else {
            Err(Error::new(ErrorKind::UnsupportedAssign))
        },
        (Variable::Object(_), Variable::Object(_)) => if store {
            Ok(Plan::Value(source.copy()))
        } else {
            Err(Error::new(ErrorKind::UnsupportedAssign))
        },
        (Variable::Array(_), Variable::Array(_)) => if store {
            Ok(Plan::Value(source.copy()))
        } else {
            Err(Error::new(ErrorKind::UnsupportedAssign))
        },
        _ => Err(mismatch_of(source)),
    }
}

/// The slot that the handle of an assignment points to: a stack slot for a
/// reference into the stack, the slot inside one for a handle.
pub open spec fn handle_place(handle: Value) -> Option<PlaceValue> {
    match handle {
        Value::StackRef(i) => Some(PlaceValue { slot: i, path: Seq::empty() }),
        Value::RawRef(p) => Some(p),
        _ => None,
    }
}

/// The stack, ready for an assignment through `handle`: where the handle
/// points to a slot inside a container and that slot holds a reference into
/// the stack, the slot gets a copy of the value referred to, so that the
/// assignment does not write through the reference.
pub open spec fn materialized(stack: Seq<Value>, handle: Value) -> Result<Seq<Value>, ErrorKind> {
    match handle {
        Value::RawRef(p) => match slot_at(stack, p) {
            Some(Value::StackRef(i)) => if i < stack.len() {
                Ok(slot_put(stack, p, stack[i as int]))
            } else {
                Err(ErrorKind::DanglingReference)
            },
            _ => Ok(stack),
        },
        _ => Ok(stack),
    }
}

/// An assignment that is ready to be carried out: into the slot `place` of
/// `stack` goes what `outcome` says.
pub struct Commit {
    pub stack: Seq<Value>,
    pub place: PlaceValue,
    pub outcome: Outcome,
}

/// What an updating assignment does, once both of its sides are evaluated:
/// `handle` is what the left side left, `value` what the right side left.
///
/// The handle names the slot. The value is followed once where it is a
/// reference. Then the types of the slot's value and of the new value decide,
/// as `assigned` says.
pub open spec fn committed(stack: Seq<Value>, op: AssignOp, handle: Value, value: Value) -> Result<
    Commit,
    ErrorKind,
> {
    match handle_place(handle) {
        None => Err(ErrorKind::ExpectedReference),
        Some(place) => match materialized(stack, handle) {
            Err(k) => Err(k),
            Ok(ready) => match resolved(ready, value) {
                None => Err(ErrorKind::DanglingReference),
                Some(source) => match slot_at(ready, place) {
                    None => Err(ErrorKind::DanglingReference),
                    Some(target) => match assigned(op, target, source) {
                        Err(k) => Err(k),
                        Ok(outcome) => Ok(Commit { stack: ready, place, outcome }),
                    },
                },
            },
        },
    }
}

/// Carries an updating assignment out, as `sem_commit` says: the slot gets
/// its new value in place, and nothing else on the stack changes. Where the
/// new value is the result of arithmetic, the host is asked for it.
pub fn commit<H: Host>(
    host: &mut Recorder<H>,
    stack: &mut Vec<Variable>,
    op: AssignOp,
    handle: Variable,
    value: Variable,
) -> (r: Result<(), Error>)
    ensures
        final(stack).len() == old(stack).len(),
        grows(old(host).log@, final(host).log@),
        forall|longer: Seq<Exchange>| #[trigger]
            extends(final(host).log@, longer) ==> sem_commit(
                models(old(stack)@),
                op,
                handle@,
                value@,
                old(host).log@.len(),
                longer,
            ) == match r {
                Ok(_) => Sem::Done((models(final(stack)@), final(host).log@.len())),
                Err(e) => Sem::Fails(e@, final(host).log@.len()),
            },
{
    let ghost start = models(stack@);
    let ghost handle_model = handle@;
    let ghost value_model = value@;
    let place = match handle {
        Variable::StackRef(i) => Place { slot: i, path: Vec::new() },
        Variable::RawRef(p) => {
            let replacement = match read(stack, &p) {
                Some(Variable::StackRef(i)) => {
                    if *i < stack.len() {
                        assert(models(stack@)[*i as int] == stack@[*i as int]@);
                        Some(stack[*i].copy())
                    } else {
                        return Err(Error::new(ErrorKind::DanglingReference));
                    }
                },
                _ => None,
            };
            match replacement {
                Some(v) => {
                    store(stack, &p, v);
                },
                None => {},
            }
            p
        },
        _ => {
            return Err(Error::new(ErrorKind::ExpectedReference));
        },
    };
    let ghost ready = models(stack@);
    assert(handle_place(handle_model) == Some(place@));
    assert(materialized(start, handle_model) == Ok::<Seq<Value>, ErrorKind>(ready));
    let plan = match resolve(stack, &value) {
        None => {
            return Err(Error::new(ErrorKind::DanglingReference));
        },
        Some(source) => match read(stack, &place) {
            None => {
                return Err(Error::new(ErrorKind::DanglingReference));
            },
            Some(target) => assign_value(op, target, source)?,
        },
    };
    let new = carry_out(host, plan);
    let ghost put = new@;
    store(stack, &place, new);
    proof {
        let c = committed(start, op, handle_model, value_model);
        assert(c is Ok);
        assert(c->Ok_0.stack == ready);
        assert(c->Ok_0.place == place@);
        assert(slot_at(ready, place@) is Some);
    }
    Ok(())
}

} // verus!
