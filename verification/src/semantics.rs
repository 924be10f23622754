//! The meaning of a program: what its evaluation does, step by step, as a
//! function of the state it starts in and of the record of its exchanges
//! with the host.
//!
//! The evaluator asks the host as it goes, and nothing is known of the
//! answers before they are given. The meaning is therefore stated over a
//! record: it asks what the evaluator asks, in the same order, and takes
//! each answer from the record. Where the record holds another exchange than
//! the one that is due, or none, the meaning is stuck.
//!
//! No evaluation ends with more budget than it began with. Where one
//! evaluation follows another, the meaning asks for this before it goes on,
//! and is stuck otherwise: that makes it well founded, and the evaluator
//! shows that it never happens.

use vstd::prelude::*;
use crate::assign::committed;
use crate::ast::{
    Arg, AssignOp, BinOpExpression, Compare, Expression, For, Function, Id, If, UnOpExpression,
};
use crate::builtins::{Builtin, builtin_named, function_index, is_duration};
use crate::deep::deep;
use crate::error::{ErrorKind, Fault, fault, fault_about};
use crate::flow::{Expect, FlowValue, ReactionValue, Side, call_outcome, label_view, reaction};
use crate::host::{Exchange, exchange_at};
use crate::lookup::{SegmentValue, computed_segment, item_emitted, key_rank};
use crate::number::number_of;
use crate::ops::{Outcome, combined, compared, negated};
use crate::place::slot_put;
use crate::print::{PieceValue, canonical};
use crate::text::{arity_detail, trimmed_left, trimmed_right};
use crate::value::{Value, cut, resolved};

verus! {

/// What an evaluation comes to.
pub enum Sem<T> {
    /// The record does not fit the evaluation.
    Stuck,
    /// The evaluation fails in this way, at this place in the record: after
    /// as many exchanges with the host.
    Fails(Fault, nat),
    /// The evaluation is done, with this result.
    Done(T),
}

/// Carrying out the outcome of an operator: a value is there; arithmetic is
/// asked of the host, and the number that it answers is the value. With the
/// value comes the place in the record that is reached.
pub open spec fn sem_carry(
    outcome: Outcome,
    asked: nat,
    record: Seq<Exchange>,
) -> Sem<(Value, nat)> {
    match outcome {
        Outcome::Value(v) => Sem::Done((v, asked)),
        Outcome::Arithmetic(op, a, b) => match exchange_at(record, asked) {
            Some(Exchange::Arithmetic(op2, a2, b2, r)) => if op2 == op && a2 == a && b2 == b {
                Sem::Done((Value::Number(r), asked + 1))
            } else {
                Sem::Stuck
            },
            _ => Sem::Stuck,
        },
    }
}

/// Carrying out an updating assignment, once both of its sides are
/// evaluated: the stack afterwards, and the place in the record that is
/// reached.
pub open spec fn sem_commit(
    stack: Seq<Value>,
    op: AssignOp,
    handle: Value,
    value: Value,
    asked: nat,
    record: Seq<Exchange>,
) -> Sem<(Seq<Value>, nat)> {
    match committed(stack, op, handle, value) {
        Err(k) => Sem::Fails(fault(k), asked),
        Ok(c) => match sem_carry(c.outcome, asked, record) {
            Sem::Done((new, reached)) => Sem::Done((slot_put(c.stack, c.place, new), reached)),
            Sem::Fails(f, a) => Sem::Fails(f, a),
            Sem::Stuck => Sem::Stuck,
        },
    }
}

/// Writing the pieces of a form out, one after the other: a text is
/// written; for a number its text is asked of the host and then written.
pub open spec fn sem_emit(pieces: Seq<PieceValue>, asked: nat, record: Seq<Exchange>) -> Sem<nat>
    decreases pieces.len(),
{
    if pieces.len() == 0 {
        Sem::Done(asked)
    } else {
        match pieces[0] {
            PieceValue::Text(t) => if exchange_at(record, asked) == Some(Exchange::Write(t)) {
                sem_emit(pieces.skip(1), asked + 1, record)
            } else {
                Sem::Stuck
            },
            PieceValue::Number(n) => match exchange_at(record, asked) {
                Some(Exchange::NumberText(m, text)) => if m == n && exchange_at(record, asked + 1)
                    == Some(Exchange::Write(text)) {
                    sem_emit(pieces.skip(1), asked + 2, record)
                } else {
                    Sem::Stuck
                },
                _ => Sem::Stuck,
            },
        }
    }
}

/// The form in which a value is shown in a dump: its canonical form, or
/// three dots where it has none.
pub open spec fn described(v: Value) -> Seq<PieceValue> {
    match canonical(v) {
        Ok(form) => form,
        Err(_) => seq![PieceValue::Text("..."@)],
    }
}

/// The values of a stack, each on a line of its own.
pub open spec fn dumped_values(stack: Seq<Value>) -> Seq<PieceValue>
    decreases stack.len(),
{
    if stack.len() == 0 {
        Seq::empty()
    } else {
        dumped_values(stack.drop_last()) + seq![PieceValue::Text("  "@)] + described(stack.last())
            + seq![PieceValue::Text("\n"@)]
    }
}

/// The local bindings, each on a line of its own, as `name: slot`.
pub open spec fn dumped_locals(locals: Seq<(Seq<char>, usize)>) -> Seq<PieceValue>
    decreases locals.len(),
{
    if locals.len() == 0 {
        Seq::empty()
    } else {
        dumped_locals(locals.drop_last()) + seq![
            PieceValue::Text("  "@),
            PieceValue::Text(locals.last().0),
            PieceValue::Text(": "@),
            PieceValue::Number(number_of(locals.last().1 as nat) as u64),
            PieceValue::Text("\n"@),
        ]
    }
}

/// What `debug` writes: the value stack and the local bindings.
pub open spec fn dump_form(stack: Seq<Value>, locals: Seq<(Seq<char>, usize)>) -> Seq<PieceValue> {
    seq![PieceValue::Text("Stack\n"@)] + dumped_values(stack) + seq![
        PieceValue::Text("Locals\n"@),
    ] + dumped_locals(locals)
}

/// What `backtrace` writes: the names of the functions whose calls are
/// under way, the outermost first, each on a line of its own.
pub open spec fn trace_form(frames: Seq<(Seq<char>, usize, usize)>) -> Seq<PieceValue>
    decreases frames.len(),
{
    if frames.len() == 0 {
        Seq::empty()
    } else {
        trace_form(frames.drop_last()) + seq![
            PieceValue::Text(frames.last().0),
            PieceValue::Text("\n"@),
        ]
    }
}

/// What a built-in procedure yields, with the budget that is left and the
/// place in the record that is reached.
pub type Answered = (Option<Value>, nat, nat);

/// `read_number`: lines are asked of the host until one of them, without
/// the white space around it, is a number by the host's word. After each
/// line that is none the message is written, and a line break. Each line
/// takes one step of the budget.
pub open spec fn sem_read_number(
    message: Seq<char>,
    budget: nat,
    asked: nat,
    record: Seq<Exchange>,
) -> Sem<Answered>
    decreases budget,
{
    if budget == 0 {
        Sem::Fails(fault(ErrorKind::OutOfBudget), asked)
    } else {
        match exchange_at(record, asked) {
            Some(Exchange::ReadLine(Err(message))) => Sem::Fails(
                fault_about(ErrorKind::Io, message),
                asked + 1,
            ),
            Some(Exchange::ReadLine(Ok(line))) => match exchange_at(record, asked + 1) {
                Some(Exchange::ParseNumber(text, parsed)) => if text != trimmed_left(
                    trimmed_right(line),
                ) {
                    Sem::Stuck
                } else {
                    match parsed {
                        Some(n) => Sem::Done(
                            (Some(Value::Number(n)), (budget - 1) as nat, asked + 2),
                        ),
                        None => if exchange_at(record, asked + 2) == Some(Exchange::Write(message))
                            && exchange_at(record, asked + 3) == Some(Exchange::Write("\n"@)) {
                            sem_read_number(message, (budget - 1) as nat, asked + 4, record)
                        } else {
                            Sem::Stuck
                        },
                    }
                },
                _ => Sem::Stuck,
            },
            _ => Sem::Stuck,
        }
    }
}

/// Writing a form out, for a procedure that yields nothing.
pub open spec fn sem_show(
    form: Seq<PieceValue>,
    budget: nat,
    asked: nat,
    record: Seq<Exchange>,
) -> Sem<Answered> {
    match sem_emit(form, asked, record) {
        Sem::Done(reached) => Sem::Done((None, budget, reached)),
        Sem::Fails(f, a) => Sem::Fails(f, a),
        Sem::Stuck => Sem::Stuck,
    }
}

/// What a built-in procedure does with the value `w` of its argument.
///
/// The functions of one number ask the host and yield its answer. `sleep`
/// has the host wait, for a time that is a number and not below zero.
/// `len` yields the length of an array as a number. `read_number` reads
/// lines from the host until one is a number, which it yields.
/// `trim_right` yields a text without the white space at its end.
/// `to_string` yields a text as it is, and for a number the text that the
/// host gives it.
pub open spec fn sem_apply_to(
    b: Builtin,
    w: Value,
    budget: nat,
    asked: nat,
    record: Seq<Exchange>,
) -> Sem<Answered> {
    match b {
        Builtin::Math(f) => match w {
            Value::Number(x) => match exchange_at(record, asked) {
                Some(Exchange::Unary(g, y, r)) => if g == f && y == x {
                    Sem::Done((Some(Value::Number(r)), budget, asked + 1))
                } else {
                    Sem::Stuck
                },
                _ => Sem::Stuck,
            },
            _ => Sem::Fails(fault(ErrorKind::ExpectedNumber), asked),
        },
        Builtin::Sleep => match w {
            Value::Number(x) => if is_duration(x) {
                if exchange_at(record, asked) == Some(Exchange::Sleep(x)) {
                    Sem::Done((None, budget, asked + 1))
                } else {
                    Sem::Stuck
                }
            } else {
                Sem::Fails(fault(ErrorKind::InvalidDuration), asked)
            },
            _ => Sem::Fails(fault(ErrorKind::ExpectedNumber), asked),
        },
        Builtin::Len => match w {
            Value::Array(a) => Sem::Done(
                (Some(Value::Number(number_of(a.len()) as u64)), budget, asked),
            ),
            _ => Sem::Fails(fault(ErrorKind::ExpectedArray), asked),
        },
        Builtin::ReadNumber => match w {
            Value::Text(message) => sem_read_number(message, budget, asked, record),
            _ => Sem::Fails(fault(ErrorKind::ExpectedText), asked),
        },
        Builtin::TrimRight => match w {
            Value::Text(t) => Sem::Done((Some(Value::Text(trimmed_right(t))), budget, asked)),
            _ => Sem::Fails(fault(ErrorKind::ExpectedText), asked),
        },
        Builtin::ToString => match w {
            Value::Text(_) => Sem::Done((Some(w), budget, asked)),
            Value::Number(x) => match exchange_at(record, asked) {
                Some(Exchange::NumberText(y, text)) => if y == x {
                    Sem::Done((Some(Value::Text(text)), budget, asked + 1))
                } else {
                    Sem::Stuck
                },
                _ => Sem::Stuck,
            },
            _ => Sem::Fails(fault(ErrorKind::ExpectedTextOrNumber), asked),
        },
        _ => Sem::Done((None, budget, asked)),
    }
}

/// What a built-in procedure does.
///
/// `arg` is the argument as it was left on the stack, if the procedure
/// takes one. `random` draws a number. `read_line` asks the host for a
/// line. `debug` and `backtrace` write the stacks. `clone` yields the deep
/// copy of its argument. `print` and `println` write the canonical form of
/// the deep copy of their argument, `println` with a line break after it.
/// For the other procedures a reference is followed once, and
/// `sem_apply_to` says what they do with the value.
pub open spec fn sem_apply(
    b: Builtin,
    arg: Option<Value>,
    stack: Seq<Value>,
    locals: Seq<(Seq<char>, usize)>,
    frames: Seq<(Seq<char>, usize, usize)>,
    budget: nat,
    asked: nat,
    record: Seq<Exchange>,
) -> Sem<Answered> {
    match b {
        Builtin::Random => match exchange_at(record, asked) {
            Some(Exchange::Random(r)) => Sem::Done((Some(Value::Number(r)), budget, asked + 1)),
            _ => Sem::Stuck,
        },
        Builtin::ReadLine => match exchange_at(record, asked) {
            Some(Exchange::ReadLine(Ok(line))) => Sem::Done(
                (Some(Value::Text(line)), budget, asked + 1),
            ),
            Some(Exchange::ReadLine(Err(message))) => Sem::Fails(
                fault_about(ErrorKind::Io, message),
                asked + 1,
            ),
            _ => Sem::Stuck,
        },
        Builtin::Debug => sem_show(dump_form(stack, locals), budget, asked, record),
        Builtin::Backtrace => sem_show(trace_form(frames), budget, asked, record),
        _ => match arg {
            None => Sem::Fails(fault(ErrorKind::EmptyStack), asked),
            Some(v) => match b {
                Builtin::Clone => match deep(v, stack, stack.len()) {
                    Ok(c) => Sem::Done((Some(c), budget, asked)),
                    Err(k) => Sem::Fails(fault(k), asked),
                },
                Builtin::Print | Builtin::Println => match deep(v, stack, stack.len()) {
                    Ok(c) => match canonical(c) {
                        Ok(form) => sem_show(
                            if b == Builtin::Println {
                                form.push(PieceValue::Text("\n"@))
                            } else {
                                form
                            },
                            budget,
                            asked,
                            record,
                        ),
                        Err(k) => Sem::Fails(fault(k), asked),
                    },
                    Err(k) => Sem::Fails(fault(k), asked),
                },
                _ => match resolved(stack, v) {
                    None => Sem::Fails(fault(ErrorKind::DanglingReference), asked),
                    Some(w) => sem_apply_to(b, w, budget, asked, record),
                },
            },
        },
    }
}

/// The state of an evaluation.
pub struct State<'a> {
    /// The user-defined functions, in the order of their registration.
    pub functions: Seq<&'a Function>,
    /// The name that a function's return slot is bound to.
    pub ret: Seq<char>,
    /// The value stack.
    pub stack: Seq<Value>,
    /// The local bindings: a name and the stack slot bound to it.
    pub locals: Seq<(Seq<char>, usize)>,
    /// The frames of the calls under way: the name of the function, and the
    /// heights of the value stack and of the local bindings that its
    /// caller goes on with.
    pub frames: Seq<(Seq<char>, usize, usize)>,
    /// The number of evaluation steps that are left.
    pub budget: nat,
    /// The number of exchanges with the host so far.
    pub asked: nat,
}

/// A state, whether a value was produced, and how to go on.
pub type Step<'a> = (State<'a>, Expect, FlowValue);

/// A state, and whether the evaluation flowed on; where it did not, it
/// returned from the function.
pub type Went<'a> = (State<'a>, bool);

impl<'a> State<'a> {
    /// The state with `v` on top of the value stack.
    pub open spec fn push(self, v: Value) -> State<'a> {
        State { stack: self.stack.push(v), ..self }
    }

    /// The state with another value stack.
    pub open spec fn with_stack(self, stack: Seq<Value>) -> State<'a> {
        State { stack, ..self }
    }

    /// The state with both stacks cut back to these heights.
    pub open spec fn cut_to(self, stack: int, locals: int) -> State<'a> {
        State { stack: cut(self.stack, stack), locals: cut(self.locals, locals), ..self }
    }
}

/// The step that ends an evaluation with a value on the stack.
pub open spec fn value<'a>(s: State<'a>) -> Sem<Step<'a>> {
    Sem::Done((s, Expect::Something, FlowValue::Continue))
}

/// The step that returns from the function.
pub open spec fn returned<'a>(s: State<'a>, produced: Expect) -> Sem<Step<'a>> {
    Sem::Done((s, produced, FlowValue::Return))
}

/// The evaluation of an expression. It takes one step of the budget.
pub open spec fn sem_expression<'a>(
    s: State<'a>,
    e: Expression,
    side: Side,
    record: Seq<Exchange>,
) -> Sem<Step<'a>>
    decreases s.budget, 0nat, 0nat,
{
    if s.budget == 0 {
        Sem::Fails(fault(ErrorKind::OutOfBudget), s.asked)
    } else {
        let s = State { budget: (s.budget - 1) as nat, ..s };
        match e {
            Expression::Number(n) => value(s.push(Value::Number(n))),
            Expression::Text(t) => value(s.push(Value::Text(t@))),
            Expression::Bool(b) => value(s.push(Value::Bool(b))),
            Expression::Object(entries) => sem_object(s, entries@, 0, Seq::empty(), record),
            Expression::Array(items) => sem_array(s, items@, 0, Seq::empty(), record),
            Expression::Item(item) => sem_item(s, item.name@, item.ids@, side, record),
            Expression::UnOp(u) => sem_unop(s, *u, side, record),
            Expression::BinOp(b) => sem_binop(s, *b, side, record),
            Expression::Compare(c) => sem_compare(s, *c, record),
            Expression::Assign(a) => sem_assign(s, a.op, a.left, a.right, record),
            Expression::Call(c) => sem_call(s, c.name@, c.args@, record),
            Expression::If(i) => sem_if(s, *i, record),
            Expression::For(f) => sem_for(s, *f, record),
            Expression::Block(b) => sem_block(s, b.expressions@, record),
            Expression::Return(v) => sem_return(s, *v, record),
            Expression::Break(l) => Sem::Done(
                (s, Expect::Nothing, FlowValue::Break(label_view(l))),
            ),
            Expression::Continue(l) => Sem::Done(
                (s, Expect::Nothing, FlowValue::ContinueLoop(label_view(l))),
            ),
        }
    }
}

/// The evaluation of an expression whose value is needed: it flows on
/// with a value, or it returns from the function.
pub open spec fn sem_operand<'a>(
    s: State<'a>,
    e: Expression,
    side: Side,
    record: Seq<Exchange>,
) -> Sem<Went<'a>>
    decreases s.budget, 1nat, 0nat,
{
    match sem_expression(s, e, side, record) {
        Sem::Stuck => Sem::Stuck,
        Sem::Fails(f, a) => Sem::Fails(f, a),
        Sem::Done((s1, _, FlowValue::Return)) => Sem::Done((s1, false)),
        Sem::Done((s1, Expect::Something, FlowValue::Continue)) => Sem::Done((s1, true)),
        Sem::Done((s1, _, _)) => Sem::Fails(fault(ErrorKind::ExpectedSomething), s1.asked),
    }
}

/// The evaluation of an expression that stands for its effect only: it
/// flows on, or it returns from the function.
pub open spec fn sem_statement<'a>(
    s: State<'a>,
    e: Expression,
    record: Seq<Exchange>,
) -> Sem<Went<'a>>
    decreases s.budget, 1nat, 0nat,
{
    match sem_expression(s, e, Side::Right, record) {
        Sem::Stuck => Sem::Stuck,
        Sem::Fails(f, a) => Sem::Fails(f, a),
        Sem::Done((s1, _, FlowValue::Continue)) => Sem::Done((s1, true)),
        Sem::Done((s1, _, FlowValue::Return)) => Sem::Done((s1, false)),
        Sem::Done((s1, _, _)) => Sem::Fails(fault(ErrorKind::UnexpectedJump), s1.asked),
    }
}

/// The evaluation of a block: of its expressions, one after the other,
/// until one of them does not flow on. A block that is done drops the
/// local bindings that were made in it, and produces what its last
/// expression produced.
pub open spec fn sem_block<'a>(
    s: State<'a>,
    expressions: Seq<Expression>,
    record: Seq<Exchange>,
) -> Sem<Step<'a>>
    decreases s.budget, 2nat, 0nat,
{
    sem_block_from(s, expressions, 0, Expect::Nothing, s.locals.len() as int, record)
}

/// The evaluation of a block from its expression `i` on, after the
/// expressions before it have flowed on; `produced` is what the last of
/// them produced, and `height` the height of the local bindings when the
/// block began.
pub open spec fn sem_block_from<'a>(
    s: State<'a>,
    expressions: Seq<Expression>,
    i: nat,
    produced: Expect,
    height: int,
    record: Seq<Exchange>,
) -> Sem<Step<'a>>
    decreases s.budget, 1nat, expressions.len() - i,
{
    if i >= expressions.len() {
        Sem::Done((State { locals: cut(s.locals, height), ..s }, produced, FlowValue::Continue))
    } else {
        match sem_expression(s, expressions[i as int], Side::Right, record) {
            Sem::Stuck => Sem::Stuck,
            Sem::Fails(f, a) => Sem::Fails(f, a),
            Sem::Done((s1, x, FlowValue::Continue)) => if s1.budget <= s.budget {
                sem_block_from(s1, expressions, i + 1, x, height, record)
            } else {
                Sem::Stuck
            },
            Sem::Done(step) => Sem::Done(step),
        }
    }
}

/// The boolean on top of the stack, taken from it: the state without it,
/// and the boolean. A reference is followed once.
pub open spec fn taken_bool<'a>(s: State<'a>) -> Sem<(State<'a>, bool)> {
    if s.stack.len() == 0 {
        Sem::Fails(fault(ErrorKind::EmptyStack), s.asked)
    } else {
        match resolved(s.stack.drop_last(), s.stack.last()) {
            Some(Value::Bool(b)) => Sem::Done((s.with_stack(s.stack.drop_last()), b)),
            Some(_) => Sem::Fails(fault(ErrorKind::ExpectedBool), s.asked),
            None => Sem::Fails(fault(ErrorKind::DanglingReference), s.asked),
        }
    }
}

/// The evaluation of a branch: of its condition, and then of the block
/// that the condition selects, if there is one.
pub open spec fn sem_if<'a>(s: State<'a>, i: If, record: Seq<Exchange>) -> Sem<Step<'a>>
    decreases s.budget, 3nat, 0nat,
{
    match sem_operand(s, i.cond, Side::Right, record) {
        Sem::Stuck => Sem::Stuck,
        Sem::Fails(f, a) => Sem::Fails(f, a),
        Sem::Done((s1, false)) => returned(s1, Expect::Something),
        Sem::Done((s1, true)) => match taken_bool(s1) {
            Sem::Stuck => Sem::Stuck,
            Sem::Fails(f, a) => Sem::Fails(f, a),
            Sem::Done((s2, chosen)) => if s2.budget > s.budget {
                Sem::Stuck
            } else if chosen {
                sem_block(s2, i.true_block.expressions@, record)
            } else {
                match i.else_block {
                    Some(b) => sem_block(s2, b.expressions@, record),
                    None => Sem::Done((s2, Expect::Nothing, FlowValue::Continue)),
                }
            },
        },
    }
}

/// The heights that a loop cuts its stacks back to: those from before the
/// loop, and those from after its first expression.
pub struct Heights {
    pub stack_before: int,
    pub locals_before: int,
    pub stack_inside: int,
    pub locals_inside: int,
}

/// The flow of an option.
pub open spec fn flow_model(flow: Option<crate::flow::Flow>) -> Option<FlowValue> {
    match flow {
        Some(f) => Some(f@),
        None => None,
    }
}

/// The evaluation of a loop: of its first expression, and then of its rounds.
pub open spec fn sem_for<'a>(s: State<'a>, f: For, record: Seq<Exchange>) -> Sem<Step<'a>>
    decreases s.budget, 5nat, 0nat,
{
    match sem_statement(s, f.init, record) {
        Sem::Stuck => Sem::Stuck,
        Sem::Fails(f, a) => Sem::Fails(f, a),
        Sem::Done((s1, false)) => returned(s1, Expect::Nothing),
        Sem::Done((s1, true)) => if s1.budget <= s.budget {
            sem_rounds(
                s1,
                f,
                Heights {
                    stack_before: s.stack.len() as int,
                    locals_before: s.locals.len() as int,
                    stack_inside: s1.stack.len() as int,
                    locals_inside: s1.locals.len() as int,
                },
                record,
            )
        } else {
            Sem::Stuck
        },
    }
}

/// The rounds of a loop, one after the other, until one of them ends the
/// loop. At the end of the loop both stacks are cut back to their heights
/// before it, unless the loop returns from the function.
pub open spec fn sem_rounds<'a>(s: State<'a>, f: For, h: Heights, record: Seq<Exchange>) -> Sem<
    Step<'a>,
>
    decreases s.budget, 4nat, 0nat,
{
    match sem_round(s, f, h, record) {
        Sem::Stuck => Sem::Stuck,
        Sem::Fails(f, a) => Sem::Fails(f, a),
        Sem::Done((s1, None)) => if s1.budget < s.budget {
            sem_rounds(s1, f, h, record)
        } else {
            Sem::Stuck
        },
        Sem::Done((s1, Some(FlowValue::Return))) => returned(s1, Expect::Nothing),
        Sem::Done((s1, Some(flow))) => Sem::Done(
            (s1.cut_to(h.stack_before, h.locals_before), Expect::Nothing, flow),
        ),
    }
}

/// One round of a loop. It evaluates the condition and ends the loop
/// where it is false; else it goes on as `sem_body` says.
///
/// With the state comes the flow with which the loop ends, or nothing where
/// another round is due.
pub open spec fn sem_round<'a>(s: State<'a>, f: For, h: Heights, record: Seq<Exchange>) -> Sem<
    (State<'a>, Option<FlowValue>),
>
    decreases s.budget, 3nat, 0nat,
{
    match sem_operand(s, f.cond, Side::Right, record) {
        Sem::Stuck => Sem::Stuck,
        Sem::Fails(f, a) => Sem::Fails(f, a),
        Sem::Done((s1, false)) => Sem::Done((s1, Some(FlowValue::Return))),
        Sem::Done((s1, true)) => match taken_bool(s1) {
            Sem::Stuck => Sem::Stuck,
            Sem::Fails(f, a) => Sem::Fails(f, a),
            Sem::Done((s2, round)) => if s2.budget > s.budget {
                Sem::Stuck
            } else if !round {
                Sem::Done(
                    (s2.cut_to(h.stack_inside, h.locals_inside), Some(FlowValue::Continue)),
                )
            } else {
                sem_body(s2, f, h, record)
            },
        },
    }
}

/// The rest of a round of a loop whose condition is true. It evaluates the
/// body and reacts to its flow as `reaction` says: with the step expression
/// and the next round, or with the end of the loop. Then both stacks are cut
/// back to their heights after the first expression, unless the round
/// returns from the function.
pub open spec fn sem_body<'a>(s: State<'a>, f: For, h: Heights, record: Seq<Exchange>) -> Sem<
    (State<'a>, Option<FlowValue>),
>
    decreases s.budget, 2nat, 1nat,
{
    match sem_block(s, f.block.expressions@, record) {
        Sem::Stuck => Sem::Stuck,
        Sem::Fails(f, a) => Sem::Fails(f, a),
        Sem::Done((s1, _, flow)) => if s1.budget > s.budget {
            Sem::Stuck
        } else {
            match reaction(label_view(f.label), flow) {
                ReactionValue::Leave(FlowValue::Return) => Sem::Done(
                    (s1, Some(FlowValue::Return)),
                ),
                ReactionValue::Leave(handed_on) => Sem::Done(
                    (s1.cut_to(h.stack_inside, h.locals_inside), Some(handed_on)),
                ),
                ReactionValue::Next => match sem_statement(s1, f.step, record) {
                    Sem::Stuck => Sem::Stuck,
                    Sem::Fails(f, a) => Sem::Fails(f, a),
                    Sem::Done((s2, false)) => Sem::Done((s2, Some(FlowValue::Return))),
                    Sem::Done((s2, true)) => Sem::Done(
                        (s2.cut_to(h.stack_inside, h.locals_inside), None),
                    ),
                },
            }
        },
    }
}

/// The evaluation of the arguments of a call from the argument `i` on;
/// `slots` are the stack slots of the values of the arguments before it.
/// With the state comes the slot of each argument's value; or nothing,
/// where an argument returned from the function.
pub open spec fn sem_arguments<'a>(
    s: State<'a>,
    args: Seq<Expression>,
    i: nat,
    slots: Seq<usize>,
    record: Seq<Exchange>,
) -> Sem<(State<'a>, Option<Seq<usize>>)>
    decreases s.budget, 2nat, args.len() - i,
{
    if i >= args.len() {
        Sem::Done((s, Some(slots)))
    } else {
        match sem_operand(s, args[i as int], Side::Right, record) {
            Sem::Stuck => Sem::Stuck,
            Sem::Fails(f, a) => Sem::Fails(f, a),
            Sem::Done((s1, false)) => Sem::Done((s1, None)),
            Sem::Done((s1, true)) => if s1.budget <= s.budget && 0 < s1.stack.len() <= usize::MAX {
                sem_arguments(
                    s1,
                    args,
                    i + 1,
                    slots.push((s1.stack.len() - 1) as usize),
                    record,
                )
            } else {
                Sem::Stuck
            },
        }
    }
}

/// The value that a parameter begins with, for an argument whose value is
/// in the slot `slot`: a copy of the value that the argument refers to where
/// it is a reference, else the argument's value itself.
pub open spec fn argument_value(stack: Seq<Value>, slot: usize) -> Value {
    match resolved(stack, stack[slot as int]) {
        Some(v) => v,
        None => stack[slot as int],
    }
}

/// The value stack with the arguments from `i` on made the parameters' own:
/// each slot of an argument holds what `argument_value` says, so that an
/// assignment to the parameter writes into that slot and into no slot of
/// the caller.
pub open spec fn owned(stack: Seq<Value>, slots: Seq<usize>, i: nat) -> Seq<Value>
    decreases slots.len() - i,
{
    if i >= slots.len() {
        stack
    } else if slots[i as int] < stack.len() {
        owned(
            stack.update(slots[i as int] as int, argument_value(stack, slots[i as int])),
            slots,
            i + 1,
        )
    } else {
        owned(stack, slots, i + 1)
    }
}

/// The local bindings with the parameters from `i` on, each bound to the
/// slot of its own argument.
pub open spec fn bound(
    locals: Seq<(Seq<char>, usize)>,
    params: Seq<Arg>,
    slots: Seq<usize>,
    i: nat,
) -> Seq<(Seq<char>, usize)>
    decreases params.len() - i,
{
    if i >= params.len() || i >= slots.len() {
        locals
    } else {
        bound(locals.push((params[i as int].name@, slots[i as int])), params, slots, i + 1)
    }
}

/// The argument of a built-in procedure, taken from the stack: the state
/// without it, and the argument, if the procedure takes one.
pub open spec fn taken_argument<'a>(s: State<'a>, count: nat) -> Sem<(State<'a>, Option<Value>)> {
    if count == 0 {
        Sem::Done((s, None))
    } else if s.stack.len() == 0 {
        Sem::Fails(fault(ErrorKind::EmptyStack), s.asked)
    } else {
        Sem::Done((s.with_stack(s.stack.drop_last()), Some(s.stack.last())))
    }
}

/// The text of a label; the empty text for none.
pub open spec fn label_text(label: Option<Seq<char>>) -> Seq<char> {
    match label {
        Some(l) => l,
        None => Seq::empty(),
    }
}

/// The state in which the body of a function begins: the state after the
/// arguments, with a new frame, with the return slot bound where the
/// function declares a return value, and with each parameter bound to the
/// slot of its own argument, which holds a copy of what the argument refers
/// to where the argument is a reference. `st` and `lc` are the heights that
/// the frame records.
pub open spec fn entered<'a>(
    s: State<'a>,
    name: Seq<char>,
    f: Function,
    slots: Seq<usize>,
    st: usize,
    lc: usize,
) -> State<'a> {
    State {
        frames: s.frames.push((name, st, lc)),
        stack: owned(s.stack, slots, 0),
        locals: bound(
            if f.returns {
                s.locals.push((s.ret, (st - 1) as usize))
            } else {
                s.locals
            },
            f.args@,
            slots,
            0,
        ),
        ..s
    }
}

/// The end of a call of a user-defined function, once its body is done:
/// the frame of the call, which is the last one, is gone, both stacks are
/// cut back to the heights that it recorded, and `call_outcome` says how the
/// call ends.
pub open spec fn sem_leave<'a>(
    s: State<'a>,
    st: usize,
    lc: usize,
    declared: bool,
    produced: Expect,
) -> Sem<Step<'a>> {
    let s1 = State { frames: s.frames.drop_last(), ..s.cut_to(st as int, lc as int) };
    match call_outcome(
        declared,
        produced,
        if s1.stack.len() > 0 {
            Some(s1.stack.last())
        } else {
            None
        },
    ) {
        Ok(x) => Sem::Done((s1, x, FlowValue::Continue)),
        Err(k) => Sem::Fails(fault(k), s1.asked),
    }
}

/// The call of the user-defined function `f` by the name `name`.
///
/// The number of arguments must be the one that the function declares.
/// Where it declares a return value, an empty return slot is put on the
/// stack. Then the arguments are evaluated; where one of them returns, so
/// does the call. The body runs in the state that `entered` gives; a break
/// or a continue that leaves it is a failure, which holds its label. The
/// call ends as `sem_leave` says. A failure for the number of arguments
/// says what `arity_detail` says.
pub open spec fn sem_invoke<'a>(
    s: State<'a>,
    name: Seq<char>,
    f: Function,
    args: Seq<Expression>,
    record: Seq<Exchange>,
) -> Sem<Step<'a>>
    decreases s.budget, 3nat, 0nat,
{
    if args.len() != f.args.len() {
        Sem::Fails(
            fault_about(ErrorKind::Arity, arity_detail(name, f.args.len() as nat, args.len())),
            s.asked,
        )
    } else {
        let s0 = if f.returns {
            s.push(Value::Return)
        } else {
            s
        };
        match sem_arguments(s0, args, 0, Seq::empty(), record) {
            Sem::Stuck => Sem::Stuck,
            Sem::Fails(f, a) => Sem::Fails(f, a),
            Sem::Done((s1, None)) => returned(s1, Expect::Something),
            Sem::Done((s1, Some(slots))) => if s1.budget > s.budget || s0.stack.len() > usize::MAX
                || s0.locals.len() > usize::MAX {
                Sem::Stuck
            } else {
                let st = s0.stack.len() as usize;
                let lc = s0.locals.len() as usize;
                match sem_block(entered(s1, name, f, slots, st, lc), f.block.expressions@, record) {
                    Sem::Stuck => Sem::Stuck,
                    Sem::Fails(f, a) => Sem::Fails(f, a),
                    Sem::Done((s2, produced, flow)) => match flow {
                        FlowValue::Break(l) => Sem::Fails(
                            fault_about(ErrorKind::BreakFromFunction, label_text(l)),
                            s2.asked,
                        ),
                        FlowValue::ContinueLoop(l) => Sem::Fails(
                            fault_about(ErrorKind::ContinueFromFunction, label_text(l)),
                            s2.asked,
                        ),
                        _ => sem_leave(s2, st, lc, f.returns, produced),
                    },
                }
            },
        }
    }
}

/// The call of the built-in procedure `b` by the name `name`.
///
/// The number of arguments must be the one that the procedure takes. The
/// arguments are evaluated; where one of them returns, so does the call.
/// The procedure gets its argument from the stack, and its answer, if it
/// has one, is left there in place of the arguments.
pub open spec fn sem_intrinsic<'a>(
    s: State<'a>,
    name: Seq<char>,
    b: Builtin,
    args: Seq<Expression>,
    record: Seq<Exchange>,
) -> Sem<Step<'a>>
    decreases s.budget, 3nat, 0nat,
{
    if args.len() != b.arity() {
        Sem::Fails(
            fault_about(ErrorKind::Arity, arity_detail(name, b.arity(), args.len())),
            s.asked,
        )
    } else {
        match sem_arguments(s, args, 0, Seq::empty(), record) {
            Sem::Stuck => Sem::Stuck,
            Sem::Fails(f, a) => Sem::Fails(f, a),
            Sem::Done((s1, None)) => returned(s1, Expect::Something),
            Sem::Done((s1, Some(_))) => match taken_argument(s1, args.len()) {
                Sem::Stuck => Sem::Stuck,
                Sem::Fails(f, a) => Sem::Fails(f, a),
                Sem::Done((s2, arg)) => match sem_apply(
                    b,
                    arg,
                    s2.stack,
                    s2.locals,
                    s2.frames,
                    s2.budget,
                    s2.asked,
                    record,
                ) {
                    Sem::Stuck => Sem::Stuck,
                    Sem::Fails(f, a) => Sem::Fails(f, a),
                    Sem::Done((answer, budget, asked)) => {
                        let s3 = State {
                            stack: cut(s2.stack, s.stack.len() as int),
                            budget,
                            asked,
                            ..s2
                        };
                        match answer {
                            Some(v) => value(s3.push(v)),
                            None => Sem::Done((s3, Expect::Nothing, FlowValue::Continue)),
                        }
                    },
                },
            },
        }
    }
}

/// The evaluation of a call: of the user-defined function of that name,
/// else of the built-in procedure of that name.
pub open spec fn sem_call<'a>(
    s: State<'a>,
    name: Seq<char>,
    args: Seq<Expression>,
    record: Seq<Exchange>,
) -> Sem<Step<'a>>
    decreases s.budget, 4nat, 0nat,
{
    match function_index(s.functions, name) {
        Some(index) => sem_invoke(s, name, *s.functions[index], args, record),
        None => match builtin_named(name) {
            None => Sem::Fails(fault_about(ErrorKind::UnknownFunction, name), s.asked),
            Some(b) => sem_intrinsic(s, name, b, args, record),
        },
    }
}

/// The run of a program whose functions are registered: the call of
/// `main`, if there is a function of that name. `main` takes no arguments.
pub open spec fn sem_main<'a>(s: State<'a>, record: Seq<Exchange>) -> Sem<State<'a>> {
    match function_index(s.functions, "main"@) {
        None => Sem::Done(s),
        Some(index) => if s.functions[index].args.len() > 0 {
            Sem::Fails(fault(ErrorKind::MainHasArguments), s.asked)
        } else {
            match sem_call(s, "main"@, Seq::empty(), record) {
                Sem::Stuck => Sem::Stuck,
                Sem::Fails(f, a) => Sem::Fails(f, a),
                Sem::Done((s1, _, _)) => Sem::Done(s1),
            }
        },
    }
}

/// The evaluation of the bracketed expressions of a path from the segment
/// `i` on; `positions` holds, for each segment before it, the stack slot
/// of the value of its bracketed expression, or 0 for a literal segment.
pub open spec fn sem_brackets<'a>(
    s: State<'a>,
    ids: Seq<Id>,
    i: nat,
    positions: Seq<usize>,
    record: Seq<Exchange>,
) -> Sem<(State<'a>, Seq<usize>)>
    decreases s.budget, 2nat, ids.len() - i,
{
    if i >= ids.len() {
        Sem::Done((s, positions))
    } else {
        match ids[i as int] {
            Id::Expression(e) => match sem_operand(s, e, Side::Right, record) {
                Sem::Stuck => Sem::Stuck,
                Sem::Fails(f, a) => Sem::Fails(f, a),
                Sem::Done((s1, false)) => Sem::Fails(fault(ErrorKind::ExpectedSomething), s1.asked),
                Sem::Done((s1, true)) => if s1.budget <= s.budget && 0 < s1.stack.len()
                    <= usize::MAX {
                    sem_brackets(
                        s1,
                        ids,
                        i + 1,
                        positions.push((s1.stack.len() - 1) as usize),
                        record,
                    )
                } else {
                    Sem::Stuck
                },
            },
            _ => sem_brackets(s, ids, i + 1, positions.push(0), record),
        }
    }
}

/// The segments of a path from the segment `i` on, after `built`: a
/// literal segment as it is, a bracketed expression by its value, which is
/// in the stack slot that `positions` names.
pub open spec fn segments_from(
    stack: Seq<Value>,
    ids: Seq<Id>,
    positions: Seq<usize>,
    i: nat,
    built: Seq<SegmentValue>,
) -> Result<Seq<SegmentValue>, ErrorKind>
    decreases ids.len() - i,
{
    if i >= ids.len() {
        Ok(built)
    } else {
        match ids[i as int] {
            Id::Text(k) => segments_from(
                stack,
                ids,
                positions,
                i + 1,
                built.push(SegmentValue::Key(k@)),
            ),
            Id::Number(n) => segments_from(
                stack,
                ids,
                positions,
                i + 1,
                built.push(SegmentValue::Number(n)),
            ),
            Id::Expression(_) => if i < positions.len() && positions[i as int] < stack.len() {
                match computed_segment(stack, stack[positions[i as int] as int]) {
                    Ok(segment) => segments_from(stack, ids, positions, i + 1, built.push(segment)),
                    Err(k) => Err(k),
                }
            } else {
                Err(ErrorKind::DanglingReference)
            },
        }
    }
}

/// The evaluation of an item: of the bracketed expressions of its path,
/// and then of the item itself, as `item_emitted` says.
pub open spec fn sem_item<'a>(
    s: State<'a>,
    name: Seq<char>,
    ids: Seq<Id>,
    side: Side,
    record: Seq<Exchange>,
) -> Sem<Step<'a>>
    decreases s.budget, 3nat, 0nat,
{
    match sem_brackets(s, ids, 0, Seq::empty(), record) {
        Sem::Stuck => Sem::Stuck,
        Sem::Fails(f, a) => Sem::Fails(f, a),
        Sem::Done((s1, positions)) => match segments_from(
            s1.stack,
            ids,
            positions,
            0,
            Seq::empty(),
        ) {
            Err(k) => Sem::Fails(fault(k), s1.asked),
            Ok(segments) => match item_emitted(
                s1.stack,
                s1.locals,
                s1.frames,
                name,
                segments,
                side,
                s.stack.len() as int,
                s1.stack.len(),
            ) {
                Err(f) => Sem::Fails(f, s1.asked),
                Ok(stack) => value(s1.with_stack(stack)),
            },
        },
    }
}

/// The two values on top of the stack, taken from it: the state without
/// them, the upper one, and the lower one.
pub open spec fn taken_two<'a>(s: State<'a>) -> Sem<(State<'a>, Value, Value)> {
    if s.stack.len() < 2 {
        Sem::Fails(fault(ErrorKind::EmptyStack), s.asked)
    } else {
        Sem::Done(
            (
                s.with_stack(s.stack.take(s.stack.len() - 2)),
                s.stack[s.stack.len() - 1],
                s.stack[s.stack.len() - 2],
            ),
        )
    }
}

/// The value that a declaring assignment binds, for the value `v` that
/// its right side left: the value of the slot referred to where `v` is a
/// reference, else `v` itself.
pub open spec fn declared_value(stack: Seq<Value>, v: Value) -> Result<Value, ErrorKind> {
    match v {
        Value::StackRef(i) => if i < stack.len() {
            Ok(stack[i as int])
        } else {
            Err(ErrorKind::DanglingReference)
        },
        Value::RawRef(_) => Err(ErrorKind::RawReference),
        _ => Ok(v),
    }
}

/// The end of an updating assignment, once both of its sides are
/// evaluated: the handle and the value are taken from the stack, and the
/// assignment is carried out, as `sem_commit` says.
pub open spec fn sem_update<'a>(
    s: State<'a>,
    op: AssignOp,
    record: Seq<Exchange>,
) -> Sem<Step<'a>> {
    match taken_two(s) {
        Sem::Stuck => Sem::Stuck,
        Sem::Fails(f, a) => Sem::Fails(f, a),
        Sem::Done((s1, handle, new)) => match sem_commit(
            s1.stack,
            op,
            handle,
            new,
            s1.asked,
            record,
        ) {
            Sem::Stuck => Sem::Stuck,
            Sem::Fails(f, a) => Sem::Fails(f, a),
            Sem::Done((stack, asked)) => Sem::Done(
                (State { stack, asked, ..s1 }, Expect::Nothing, FlowValue::Continue),
            ),
        },
    }
}

/// The evaluation of the assignment `left op right`.
///
/// A declaring assignment wants a bare name on its left. It evaluates the
/// right side, follows its value once where it is a reference, leaves the
/// value on the stack and binds the name to its slot.
///
/// An updating assignment evaluates the right side, then the left side
/// for its slot, and ends as `sem_update` says. A key that the addressed
/// object lacks is inserted for `=` only.
pub open spec fn sem_assign<'a>(
    s: State<'a>,
    op: AssignOp,
    left: Expression,
    right: Expression,
    record: Seq<Exchange>,
) -> Sem<Step<'a>>
    decreases s.budget, 2nat, 0nat,
{
    if op == AssignOp::Declare {
        match left {
            Expression::Item(item) => if item.ids.len() != 0 {
                Sem::Fails(fault_about(ErrorKind::DeclareThroughPath, item.name@), s.asked)
            } else {
                match sem_operand(s, right, Side::Right, record) {
                    Sem::Stuck => Sem::Stuck,
                    Sem::Fails(f, a) => Sem::Fails(f, a),
                    Sem::Done((s1, false)) => returned(s1, Expect::Nothing),
                    Sem::Done((s1, true)) => if s1.stack.len() == 0 {
                        Sem::Fails(fault(ErrorKind::EmptyStack), s1.asked)
                    } else if s1.stack.len() > usize::MAX {
                        Sem::Stuck
                    } else {
                        let rest = s1.stack.drop_last();
                        match declared_value(rest, s1.stack.last()) {
                            Err(k) => Sem::Fails(fault(k), s1.asked),
                            Ok(v) => Sem::Done(
                                (
                                    State {
                                        stack: rest.push(v),
                                        locals: s1.locals.push((item.name@, rest.len() as usize)),
                                        ..s1
                                    },
                                    Expect::Nothing,
                                    FlowValue::Continue,
                                ),
                            ),
                        }
                    },
                }
            },
            _ => Sem::Fails(fault(ErrorKind::ExpectedItem), s.asked),
        }
    } else {
        match sem_operand(s, right, Side::Right, record) {
            Sem::Stuck => Sem::Stuck,
            Sem::Fails(f, a) => Sem::Fails(f, a),
            Sem::Done((s1, false)) => returned(s1, Expect::Nothing),
            Sem::Done((s1, true)) => if s1.budget > s.budget {
                Sem::Stuck
            } else {
                match sem_operand(s1, left, Side::LeftInsert(op == AssignOp::Store), record) {
                    Sem::Stuck => Sem::Stuck,
                    Sem::Fails(f, a) => Sem::Fails(f, a),
                    Sem::Done((s2, false)) => returned(s2, Expect::Nothing),
                    Sem::Done((s2, true)) => sem_update(s2, op, record),
                }
            },
        }
    }
}

/// The evaluation of a return: the value of the expression is assigned
/// to the return slot of the function, as `return = value` does, and the
/// function is left.
pub open spec fn sem_return<'a>(s: State<'a>, v: Expression, record: Seq<Exchange>) -> Sem<Step<'a>>
    decreases s.budget, 2nat, 0nat,
{
    match sem_operand(s, v, Side::Right, record) {
        Sem::Stuck => Sem::Stuck,
        Sem::Fails(f, a) => Sem::Fails(f, a),
        Sem::Done((s1, false)) => returned(s1, Expect::Something),
        Sem::Done((s1, true)) => match item_emitted(
            s1.stack,
            s1.locals,
            s1.frames,
            s.ret,
            Seq::empty(),
            Side::LeftInsert(true),
            s1.stack.len() as int,
            s1.stack.len(),
        ) {
            Err(f) => Sem::Fails(f, s1.asked),
            Ok(stack) => match sem_update(s1.with_stack(stack), AssignOp::Store, record) {
                Sem::Stuck => Sem::Stuck,
                Sem::Fails(f, a) => Sem::Fails(f, a),
                Sem::Done((s2, _, _)) => returned(s2, Expect::Something),
            },
        },
    }
}

/// The two operands on top of the stack, taken from it and followed once
/// where they are references: the state without them, the left one, and
/// the right one.
pub open spec fn taken_operands<'a>(s: State<'a>) -> Sem<(State<'a>, Value, Value)> {
    match taken_two(s) {
        Sem::Stuck => Sem::Stuck,
        Sem::Fails(f, a) => Sem::Fails(f, a),
        Sem::Done((s1, right, left)) => match (
            resolved(s1.stack, left),
            resolved(s1.stack, right),
        ) {
            (Some(a), Some(b)) => Sem::Done((s1, a, b)),
            _ => Sem::Fails(fault(ErrorKind::DanglingReference), s1.asked),
        },
    }
}

/// The evaluation of a comparison: of both operands, the left one first,
/// and then of the operator on their values, as `compared` says.
pub open spec fn sem_compare<'a>(s: State<'a>, c: Compare, record: Seq<Exchange>) -> Sem<Step<'a>>
    decreases s.budget, 2nat, 0nat,
{
    match sem_operand(s, c.left, Side::Right, record) {
        Sem::Stuck => Sem::Stuck,
        Sem::Fails(f, a) => Sem::Fails(f, a),
        Sem::Done((s1, false)) => returned(s1, Expect::Something),
        Sem::Done((s1, true)) => if s1.budget > s.budget {
            Sem::Stuck
        } else {
            match sem_operand(s1, c.right, Side::Right, record) {
                Sem::Stuck => Sem::Stuck,
                Sem::Fails(f, a) => Sem::Fails(f, a),
                Sem::Done((s2, false)) => returned(s2, Expect::Something),
                Sem::Done((s2, true)) => match taken_operands(s2) {
                    Sem::Stuck => Sem::Stuck,
                    Sem::Fails(f, a) => Sem::Fails(f, a),
                    Sem::Done((s3, a, b)) => match compared(c.op, a, b) {
                        Ok(outcome) => value(s3.push(Value::Bool(outcome))),
                        Err(k) => Sem::Fails(fault(k), s3.asked),
                    },
                },
            }
        },
    }
}

/// The evaluation of a binary operator: of both operands, the left one
/// first, and then of the operator on their values, as `combined` and
/// `sem_carry` say.
pub open spec fn sem_binop<'a>(
    s: State<'a>,
    b: BinOpExpression,
    side: Side,
    record: Seq<Exchange>,
) -> Sem<Step<'a>>
    decreases s.budget, 2nat, 0nat,
{
    match sem_operand(s, b.left, side, record) {
        Sem::Stuck => Sem::Stuck,
        Sem::Fails(f, a) => Sem::Fails(f, a),
        Sem::Done((s1, false)) => returned(s1, Expect::Something),
        Sem::Done((s1, true)) => if s1.budget > s.budget {
            Sem::Stuck
        } else {
            match sem_operand(s1, b.right, side, record) {
                Sem::Stuck => Sem::Stuck,
                Sem::Fails(f, a) => Sem::Fails(f, a),
                Sem::Done((s2, false)) => returned(s2, Expect::Something),
                Sem::Done((s2, true)) => match taken_operands(s2) {
                    Sem::Stuck => Sem::Stuck,
                    Sem::Fails(f, a) => Sem::Fails(f, a),
                    Sem::Done((s3, x, y)) => match combined(b.op, x, y) {
                        Err(k) => Sem::Fails(fault(k), s3.asked),
                        Ok(outcome) => match sem_carry(outcome, s3.asked, record) {
                            Sem::Stuck => Sem::Stuck,
                            Sem::Fails(f, a) => Sem::Fails(f, a),
                            Sem::Done((v, asked)) => value(State { asked, ..s3 }.push(v)),
                        },
                    },
                },
            }
        },
    }
}

/// The evaluation of a unary operator: of the operand, and then of the
/// operator on its value, as `negated` says.
pub open spec fn sem_unop<'a>(
    s: State<'a>,
    u: UnOpExpression,
    side: Side,
    record: Seq<Exchange>,
) -> Sem<Step<'a>>
    decreases s.budget, 2nat, 0nat,
{
    match sem_operand(s, u.expr, side, record) {
        Sem::Stuck => Sem::Stuck,
        Sem::Fails(f, a) => Sem::Fails(f, a),
        Sem::Done((s1, false)) => returned(s1, Expect::Something),
        Sem::Done((s1, true)) => if s1.stack.len() == 0 {
            Sem::Fails(fault(ErrorKind::EmptyStack), s1.asked)
        } else {
            let rest = s1.stack.drop_last();
            match resolved(rest, s1.stack.last()) {
                None => Sem::Fails(fault(ErrorKind::DanglingReference), s1.asked),
                Some(v) => match negated(u.op, v) {
                    Ok(outcome) => value(s1.with_stack(rest.push(outcome))),
                    Err(k) => Sem::Fails(fault(k), s1.asked),
                },
            }
        },
    }
}

/// The evaluation of an array literal from the item `i` on; `built` holds
/// the values of the items before it.
pub open spec fn sem_array<'a>(
    s: State<'a>,
    items: Seq<Expression>,
    i: nat,
    built: Seq<Value>,
    record: Seq<Exchange>,
) -> Sem<Step<'a>>
    decreases s.budget, 2nat, items.len() - i,
{
    if i >= items.len() {
        value(s.push(Value::Array(built)))
    } else {
        match sem_operand(s, items[i as int], Side::Right, record) {
            Sem::Stuck => Sem::Stuck,
            Sem::Fails(f, a) => Sem::Fails(f, a),
            Sem::Done((s1, false)) => returned(s1, Expect::Something),
            Sem::Done((s1, true)) => if s1.stack.len() == 0 {
                Sem::Fails(fault(ErrorKind::EmptyStack), s1.asked)
            } else if s1.budget <= s.budget {
                sem_array(
                    s1.with_stack(s1.stack.drop_last()),
                    items,
                    i + 1,
                    built.push(s1.stack.last()),
                    record,
                )
            } else {
                Sem::Stuck
            },
        }
    }
}

/// The evaluation of an object literal from the entry `i` on; `built`
/// holds the entries before it, with their values. A key that occurs
/// twice is a failure.
pub open spec fn sem_object<'a>(
    s: State<'a>,
    entries: Seq<(String, Expression)>,
    i: nat,
    built: Seq<(Seq<char>, Value)>,
    record: Seq<Exchange>,
) -> Sem<Step<'a>>
    decreases s.budget, 2nat, entries.len() - i,
{
    if i >= entries.len() {
        value(s.push(Value::Object(built)))
    } else {
        match sem_operand(s, entries[i as int].1, Side::Right, record) {
            Sem::Stuck => Sem::Stuck,
            Sem::Fails(f, a) => Sem::Fails(f, a),
            Sem::Done((s1, false)) => returned(s1, Expect::Something),
            Sem::Done((s1, true)) => if s1.stack.len() == 0 {
                Sem::Fails(fault(ErrorKind::EmptyStack), s1.asked)
            } else if key_rank(built, entries[i as int].0@) is Some {
                Sem::Fails(fault_about(ErrorKind::DuplicateKey, entries[i as int].0@), s1.asked)
            } else if s1.budget <= s.budget {
                sem_object(
                    s1.with_stack(s1.stack.drop_last()),
                    entries,
                    i + 1,
                    built.push((entries[i as int].0@, s1.stack.last())),
                    record,
                )
            } else {
                Sem::Stuck
            },
        }
    }
}

} // verus!
