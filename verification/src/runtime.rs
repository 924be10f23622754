//! The evaluator: it walks the syntax tree of a program and keeps the value
//! stack, the local bindings and the call stack.

pub mod assignment;
pub mod calls;
pub mod control;
pub mod expression;
pub mod items;
pub mod literals;
pub mod operators;

use vstd::prelude::*;
use crate::ast::{Assign, Block, Call, Expression, For, Function, Id, If, Item};
use crate::error::{Error, ErrorKind, Fault, fault};
use crate::flow::{Expect, Flow, FlowValue, label_view};
use crate::host::{Exchange, thread_rng};
use crate::lookup::{SegmentValue, frame_models, local_models};
use crate::semantics::{Sem, State, Step, Went, bound};
use crate::shape::{bindings, quiet, tidy};
use crate::value::{Value, Variable, cut, models};

verus! {

/// The state of an evaluation.
pub struct Runtime<'a> {
    /// The value stack: the values of the locals and what expressions leave.
    pub stack: Vec<Variable>,
    /// One frame for each call under way: the name of the function, and the
    /// heights of the value stack and of the local bindings that its caller
    /// goes on with.
    pub call_stack: Vec<(String, usize, usize)>,
    /// The local bindings: a name and the stack slot bound to it.
    pub local_stack: Vec<(String, usize)>,
    /// The user-defined functions, in the order of their registration.
    pub functions: Vec<&'a Function>,
    /// The name that a function's return slot is bound to.
    pub ret: String,
    /// The source of `random()`.
    pub rng: rand::ThreadRng,
    /// The number of evaluation steps that are left. Each expression that
    /// is evaluated takes one.
    pub budget: usize,
}

/// What an evaluation reports: whether a value was left, and how to go on.
pub type Evaluation = Result<(Expect, Flow), Error>;

/// The state of an evaluation, as the semantics sees it.
pub open spec fn state<'a>(rt: Runtime<'a>, record: Seq<Exchange>) -> State<'a> {
    State {
        functions: rt.functions@,
        ret: rt.ret@,
        stack: models(rt.stack@),
        locals: local_models(rt.local_stack@),
        frames: frame_models(rt.call_stack@),
        budget: rt.budget as nat,
        asked: record.len(),
    }
}

/// What an evaluation has come to, as the semantics sees it.
pub open spec fn outcome<'a>(
    r: Evaluation,
    rt: Runtime<'a>,
    record: Seq<Exchange>,
) -> Sem<Step<'a>> {
    match r {
        Ok((produced, flow)) => Sem::Done((state(rt, record), produced, flow@)),
        Err(e) => Sem::Fails(e@, record.len()),
    }
}

/// What the evaluation of an operand or of a statement has come to, as
/// the semantics sees it.
pub open spec fn went<'a>(r: Result<bool, Error>, rt: Runtime<'a>, record: Seq<Exchange>) -> Sem<
    Went<'a>,
> {
    match r {
        Ok(on) => Sem::Done((state(rt, record), on)),
        Err(e) => Sem::Fails(e@, record.len()),
    }
}

/// What every evaluation keeps, whether it succeeds or fails: the functions
/// and the name of the return slot. The budget does not grow.
pub open spec fn kept(before: Runtime, after: Runtime) -> bool {
    &&& after.budget <= before.budget
    &&& after.functions@ == before.functions@
    &&& after.ret@ == before.ret@
}

/// What holds after every evaluation that succeeds, whatever its flow: the
/// frames of the calls under way are as before, the value stack is not
/// lower than before, and the local bindings are those from before, with
/// new ones after them at most.
pub open spec fn grown(before: Runtime, after: Runtime) -> bool {
    &&& after.call_stack@ == before.call_stack@
    &&& after.stack.len() >= before.stack.len()
    &&& after.local_stack.len() >= before.local_stack.len()
    &&& same_bindings(before.local_stack@, after.local_stack@, before.local_stack.len() as int)
}

/// Whether the first `n` local bindings are the same in both.
pub open spec fn same_bindings(
    before: Seq<(String, usize)>,
    after: Seq<(String, usize)>,
    n: int,
) -> bool {
    forall|i: int| 0 <= i < n ==> after[i] == before[i]
}

/// What holds after an evaluation that succeeds and flows on.
///
/// The value that was produced, if any, is on the value stack, and `added`
/// local bindings are new. Where the shape of what was evaluated is tidy,
/// the value stack holds nothing new but that value; where it is quiet, no
/// value was produced.
pub open spec fn settled(
    before: Runtime,
    after: Runtime,
    produced: Expect,
    added: int,
    tidy: bool,
    quiet: bool,
) -> bool {
    &&& after.stack.len() >= before.stack.len() + produced.count()
    &&& after.local_stack.len() == before.local_stack.len() + added
    &&& tidy ==> after.stack.len() == before.stack.len() + produced.count()
    &&& quiet ==> produced == Expect::Nothing
}

/// The flows that an expression of each kind can have.
///
/// Literals and items flow on. A return returns, a break breaks and a
/// continue continues, each with its own label. A loop hands on no break and
/// no continue but one with a label other than its own. What evaluates
/// operands flows on or returns. Blocks and branches have any flow.
pub open spec fn may_flow(e: Expression, flow: FlowValue) -> bool {
    match e {
        Expression::Number(_) | Expression::Text(_) | Expression::Bool(_) | Expression::Item(
            _,
        ) => flow is Continue,
        Expression::Return(_) => flow is Return,
        Expression::Break(l) => flow == FlowValue::Break(label_view(l)),
        Expression::Continue(l) => flow == FlowValue::ContinueLoop(label_view(l)),
        Expression::For(f) => match flow {
            FlowValue::Break(l) => l is Some && l != label_view(f.label),
            FlowValue::ContinueLoop(l) => l is Some && l != label_view(f.label),
            _ => true,
        },
        Expression::Block(_) | Expression::If(_) => true,
        _ => flow is Continue || flow is Return,
    }
}

/// What an expression of each kind produces when it flows on: a value for
/// literals, items, operators and comparisons, none for assignments, loops,
/// returns, breaks and continues. Calls, blocks and branches may do either.
pub open spec fn declared(e: Expression) -> Option<Expect> {
    match e {
        Expression::Call(_) | Expression::Block(_) | Expression::If(_) => None,
        Expression::Assign(_) | Expression::For(_) | Expression::Return(_) | Expression::Break(_)
        | Expression::Continue(_) => Some(Expect::Nothing),
        _ => Some(Expect::Something),
    }
}

/// The value of a literal.
pub open spec fn literal(e: Expression) -> Option<Value> {
    match e {
        Expression::Number(n) => Some(Value::Number(n)),
        Expression::Text(t) => Some(Value::Text(t@)),
        Expression::Bool(b) => Some(Value::Bool(b)),
        _ => None,
    }
}

/// The evaluation succeeds, flows on, and leaves the value `v` on top of a
/// value stack that is otherwise as before.
pub open spec fn produces(
    before: Seq<Variable>,
    after: Seq<Variable>,
    r: Evaluation,
    v: Value,
) -> bool {
    &&& r matches Ok((Expect::Something, Flow::Continue))
    &&& after.len() == before.len() + 1
    &&& after.drop_last() == before
    &&& after.last()@ == v
}

/// The segment that a literal segment of a path makes.
pub open spec fn literal_segment(id: Id) -> SegmentValue {
    match id {
        Id::Text(k) => SegmentValue::Key(k@),
        Id::Number(n) => SegmentValue::Number(n),
        Id::Expression(_) => SegmentValue::Key(Seq::empty()),
    }
}

/// The segments of a path without bracketed expressions.
pub open spec fn literal_segments(ids: Seq<Id>) -> Seq<SegmentValue> {
    Seq::new(ids.len(), |i: int| literal_segment(ids[i]))
}

/// Whether a path holds no bracketed expression.
pub open spec fn all_literal(ids: Seq<Id>) -> bool {
    forall|i: int| 0 <= i < ids.len() ==> !(#[trigger] ids[i] is Expression)
}

/// The evaluation fails, and in this way.
pub open spec fn fails_with(r: Evaluation, failure: Fault) -> bool {
    r matches Err(e) && e@ == failure
}

/// What a loop may hand to the construct around it: no break and no
/// continue but one with a label other than its own.
pub open spec fn handed_on(label: Option<Seq<char>>, flow: FlowValue) -> bool {
    match flow {
        FlowValue::Break(l) => l is Some && l != label,
        FlowValue::ContinueLoop(l) => l is Some && l != label,
        _ => true,
    }
}

pub(crate) fn copy_label(label: &Option<String>) -> (r: Option<String>)
    ensures
        label_view(r) == label_view(*label),
{
    match label {
        Some(l) => Some(l.clone()),
        None => None,
    }
}

impl<'a> Runtime<'a> {
    /// A runtime with empty stacks, no functions, and a budget as large as
    /// the machine can count.
    pub fn new() -> (r: Runtime<'a>)
        ensures
            r.stack@.len() == 0,
            r.call_stack@.len() == 0,
            r.local_stack@.len() == 0,
            r.functions@.len() == 0,
            r.ret@ == "return"@,
            r.budget == usize::MAX,
    {
        Runtime {
            stack: Vec::new(),
            call_stack: Vec::new(),
            local_stack: Vec::new(),
            functions: Vec::new(),
            ret: String::from_str("return"),
            rng: thread_rng(),
            budget: usize::MAX,
        }
    }

    /// Takes the value on top of the value stack.
    pub(crate) fn pop(&mut self) -> (r: Result<Variable, Error>)
        ensures
            final(self).call_stack == old(self).call_stack,
            final(self).local_stack == old(self).local_stack,
            final(self).functions == old(self).functions,
            final(self).ret == old(self).ret,
            final(self).budget == old(self).budget,
            match r {
                Ok(v) => {
                    &&& old(self).stack.len() > 0
                    &&& v == old(self).stack@.last()
                    &&& v@ == models(old(self).stack@).last()
                    &&& final(self).stack@ == old(self).stack@.drop_last()
                    &&& models(final(self).stack@) == models(old(self).stack@).drop_last()
                },
                Err(e) => {
                    &&& old(self).stack.len() == 0
                    &&& e@ == fault(ErrorKind::EmptyStack)
                    &&& final(self).stack@ == old(self).stack@
                },
            },
    {
        match self.stack.pop() {
            Some(v) => {
                assert(models(self.stack@) =~= models(old(self).stack@).drop_last());
                Ok(v)
            },
            None => Err(Error::new(ErrorKind::EmptyStack)),
        }
    }

    /// Puts a value on top of the value stack.
    pub(crate) fn push(&mut self, v: Variable)
        ensures
            final(self).call_stack == old(self).call_stack,
            final(self).local_stack == old(self).local_stack,
            final(self).functions == old(self).functions,
            final(self).ret == old(self).ret,
            final(self).budget == old(self).budget,
            final(self).stack@ == old(self).stack@.push(v),
            models(final(self).stack@) == models(old(self).stack@).push(v@),
    {
        self.stack.push(v);
        assert(models(self.stack@) =~= models(old(self).stack@).push(v@));
    }

    /// Cuts the local bindings back to this height.
    pub(crate) fn cut_locals(&mut self, locals: usize)
        ensures
            final(self).stack == old(self).stack,
            final(self).call_stack == old(self).call_stack,
            final(self).functions == old(self).functions,
            final(self).ret == old(self).ret,
            final(self).budget == old(self).budget,
            final(self).local_stack@ == cut(old(self).local_stack@, locals as int),
            local_models(final(self).local_stack@) == cut(
                local_models(old(self).local_stack@),
                locals as int,
            ),
    {
        self.local_stack.truncate(locals);
        assert(self.local_stack@ =~= cut(old(self).local_stack@, locals as int));
        assert(local_models(self.local_stack@) =~= cut(
            local_models(old(self).local_stack@),
            locals as int,
        ));
    }

    /// Cuts both stacks back to these heights.
    pub(crate) fn cut_to(&mut self, stack: usize, locals: usize)
        ensures
            final(self).call_stack == old(self).call_stack,
            final(self).functions == old(self).functions,
            final(self).ret == old(self).ret,
            final(self).budget == old(self).budget,
            final(self).stack@ == cut(old(self).stack@, stack as int),
            final(self).local_stack@ == cut(old(self).local_stack@, locals as int),
            models(final(self).stack@) == cut(models(old(self).stack@), stack as int),
            local_models(final(self).local_stack@) == cut(
                local_models(old(self).local_stack@),
                locals as int,
            ),
    {
        self.stack.truncate(stack);
        self.local_stack.truncate(locals);
        assert(self.stack@ =~= cut(old(self).stack@, stack as int));
        assert(self.local_stack@ =~= cut(old(self).local_stack@, locals as int));
        assert(models(self.stack@) =~= cut(models(old(self).stack@), stack as int));
        assert(local_models(self.local_stack@) =~= cut(
            local_models(old(self).local_stack@),
            locals as int,
        ));
    }
}

} // verus!
