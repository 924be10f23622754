//! Blocks, branches and loops.

use vstd::prelude::*;
use crate::ast::{Block, Expression, For, If};
use crate::error::{Error, ErrorKind};
use crate::flow::{Expect, Flow, Reaction, Side, label_view, react};
use crate::host::{Exchange, Host, Recorder, extends, grows};
use crate::runtime::{
    Evaluation, Runtime, grown, handed_on, kept, outcome, same_bindings, settled, state, went,
};
use crate::semantics::{
    Heights, Sem, State, flow_model, sem_block, sem_block_from, sem_body, sem_for, sem_if,
    sem_round, sem_rounds, sem_statement,
};
use crate::shape::{bindings, quiet, quiet_block, tidy, tidy_block};
use crate::value::{Variable, cut, resolve};

verus! {

impl<'a> Runtime<'a> {
    /// Evaluates a block, as `sem_block` says: its expressions, one after
    /// the other, until one of them does not flow on. A block that is done
    /// drops the local bindings that were made in it, and reports what its
    /// last expression produced. The local bindings are then those from
    /// before the block.
    pub fn block<H: Host>(&mut self, host: &mut Recorder<H>, block: &Block) -> (r: Evaluation)
        ensures
            kept(*old(self), *final(self)),
            grows(old(host).log@, final(host).log@),
            forall|longer: Seq<Exchange>| #[trigger]
                extends(final(host).log@, longer) ==> sem_block(
                    state(*old(self), old(host).log@),
                    block.expressions@,
                    longer,
                ) == outcome(r, *final(self), final(host).log@),
            r matches Ok((produced, flow)) ==> {
                &&& grown(*old(self), *final(self))
                &&& flow is Continue ==> settled(
                    *old(self),
                    *final(self),
                    produced,
                    0,
                    tidy_block(old(self).functions@, *block),
                    quiet_block(old(self).functions@, *block),
                ) && final(self).local_stack@ =~= old(self).local_stack@
            },
        decreases old(self).budget, 1nat,
    {
        let mut expect = Expect::Nothing;
        let lc = self.local_stack.len();
        let ghost functions = self.functions@;
        let mut i: usize = 0;
        while i < block.expressions.len()
            invariant
                i <= block.expressions.len(),
                kept(*old(self), *self),
                grows(old(host).log@, host.log@),
                grown(*old(self), *self),
                lc == old(self).local_stack.len(),
                functions == old(self).functions@,
                self.stack.len() >= old(self).stack.len() + expect.count(),
                i == 0 ==> expect == Expect::Nothing && self.stack.len() == old(self).stack.len(),
                i > 0 && quiet(functions, block.expressions[i - 1]) ==> expect == Expect::Nothing,
                tidy_block(functions, *block) ==> self.stack.len() == old(self).stack.len()
                    + expect.count(),
                forall|longer: Seq<Exchange>| #[trigger]
                    extends(host.log@, longer) ==> sem_block(
                        state(*old(self), old(host).log@),
                        block.expressions@,
                        longer,
                    ) == sem_block_from(
                        state(*self, host.log@),
                        block.expressions@,
                        i as nat,
                        expect,
                        lc as int,
                        longer,
                    ),
            decreases block.expressions.len() - i,
        {
            let ghost before = *self;
            match self.expression(host, &block.expressions[i], Side::Right) {
                Ok((x, Flow::Continue)) => {
                    proof {
                        if tidy_block(functions, *block) {
                            assert(tidy(functions, block.expressions[i as int]));
                            if i > 0 {
                                assert(quiet(functions, block.expressions[i - 1]));
                            }
                        }
                    }
                    expect = x;
                },
                Ok(x) => {
                    return Ok(x);
                },
                Err(e) => {
                    return Err(e);
                },
            }
            i += 1;
        }
        let ghost done = state(*self, host.log@);
        self.cut_locals(lc);
        assert(state(*self, host.log@) == (State { locals: cut(done.locals, lc as int), ..done }));
        Ok((expect, Flow::Continue))
    }

    /// Evaluates a branch, as `sem_if` says: the condition, and then the
    /// block that it selects, if there is one.
    pub fn if_expr<H: Host>(&mut self, host: &mut Recorder<H>, if_expr: &If) -> (r: Evaluation)
        ensures
            kept(*old(self), *final(self)),
            grows(old(host).log@, final(host).log@),
            forall|longer: Seq<Exchange>| #[trigger]
                extends(final(host).log@, longer) ==> sem_if(
                    state(*old(self), old(host).log@),
                    *if_expr,
                    longer,
                ) == outcome(r, *final(self), final(host).log@),
            r matches Ok((produced, flow)) ==> {
                &&& grown(*old(self), *final(self))
                &&& flow is Continue ==> settled(
                    *old(self),
                    *final(self),
                    produced,
                    0,
                    tidy(old(self).functions@, if_expr.cond) && tidy_block(
                        old(self).functions@,
                        if_expr.true_block,
                    ) && (if_expr.else_block matches Some(b) ==> tidy_block(
                        old(self).functions@,
                        b,
                    )),
                    quiet_block(old(self).functions@, if_expr.true_block) && (
                    if_expr.else_block matches Some(b) ==> quiet_block(old(self).functions@, b)),
                )
            },
        decreases old(self).budget, 2nat,
    {
        if !self.operand(host, &if_expr.cond, Side::Right)? {
            return Ok((Expect::Something, Flow::Return));
        }
        let ghost s1 = state(*self, host.log@);
        let x = self.pop()?;
        assert(state(*self, host.log@) == s1.with_stack(s1.stack.drop_last()));
        let val = match resolve(&self.stack, &x) {
            Some(Variable::Bool(val)) => *val,
            Some(_) => {
                return Err(Error::new(ErrorKind::ExpectedBool));
            },
            None => {
                return Err(Error::new(ErrorKind::DanglingReference));
            },
        };
        if val {
            self.block(host, &if_expr.true_block)
        } else {
            match &if_expr.else_block {
                Some(block) => self.block(host, block),
                None => Ok((Expect::Nothing, Flow::Continue)),
            }
        }
    }

    /// Evaluates an expression that stands for its effect only, as
    /// `sem_statement` says: the first or the step expression of a loop.
    /// Returns whether it flowed on; where it did not, it returned from the
    /// function. A break or a continue there is a failure.
    pub(crate) fn statement<H: Host>(
        &mut self,
        host: &mut Recorder<H>,
        expr: &Expression,
    ) -> (r: Result<bool, Error>)
        ensures
            kept(*old(self), *final(self)),
            grows(old(host).log@, final(host).log@),
            forall|longer: Seq<Exchange>| #[trigger]
                extends(final(host).log@, longer) ==> sem_statement(
                    state(*old(self), old(host).log@),
                    *expr,
                    longer,
                ) == went(r, *final(self), final(host).log@),
            r is Ok ==> grown(*old(self), *final(self)) && final(self).budget < old(self).budget,
        decreases old(self).budget, 1nat,
    {
        match self.expression(host, expr, Side::Right) {
            Ok((_, Flow::Continue)) => Ok(true),
            Ok((_, Flow::Return)) => Ok(false),
            Ok(_) => Err(Error::new(ErrorKind::UnexpectedJump)),
            Err(e) => Err(e),
        }
    }

    /// Evaluates the body of a loop and what follows it in a round, as
    /// `sem_body` says. Returns the flow with which the loop ends, or
    /// nothing where another round is due.
    pub(crate) fn body<H: Host>(
        &mut self,
        host: &mut Recorder<H>,
        for_expr: &For,
        st: usize,
        lc: usize,
        Ghost(h): Ghost<Heights>,
    ) -> (r: Result<Option<Flow>, Error>)
        requires
            h.stack_inside == st,
            h.locals_inside == lc,
            old(self).stack.len() >= st,
            old(self).local_stack.len() >= lc,
        ensures
            kept(*old(self), *final(self)),
            grows(old(host).log@, final(host).log@),
            forall|longer: Seq<Exchange>| #[trigger]
                extends(final(host).log@, longer) ==> sem_body(
                    state(*old(self), old(host).log@),
                    *for_expr,
                    h,
                    longer,
                ) == match r {
                    Ok(flow) => Sem::Done(
                        (state(*final(self), final(host).log@), flow_model(flow)),
                    ),
                    Err(e) => Sem::Fails(e@, final(host).log@.len()),
                },
            r is Ok ==> final(self).call_stack@ == old(self).call_stack@ && final(self).stack.len()
                >= st && final(self).local_stack.len() >= lc && same_bindings(
                old(self).local_stack@,
                final(self).local_stack@,
                lc as int,
            ),
            r matches Ok(Some(flow)) ==> handed_on(label_view(for_expr.label), flow@),
            r matches Ok(flow) ==> (flow matches Some(Flow::Return) || (final(self).stack.len()
                == st && final(self).local_stack.len() == lc)),
        decreases old(self).budget, 2nat,
    {
        let (_, body_flow) = self.block(host, &for_expr.block)?;
        let end = match react(&for_expr.label, body_flow) {
            Reaction::Next => {
                if !self.statement(host, &for_expr.step)? {
                    return Ok(Some(Flow::Return));
                }
                None
            },
            Reaction::Leave(Flow::Return) => {
                return Ok(Some(Flow::Return));
            },
            Reaction::Leave(f) => Some(f),
        };
        let ghost s4 = state(*self, host.log@);
        self.cut_to(st, lc);
        assert(state(*self, host.log@) == s4.cut_to(h.stack_inside, h.locals_inside));
        Ok(end)
    }

    /// Evaluates one round of a loop, as `sem_round` says. Returns the
    /// flow with which the loop ends, or nothing where another round is due.
    pub(crate) fn round<H: Host>(
        &mut self,
        host: &mut Recorder<H>,
        for_expr: &For,
        st: usize,
        lc: usize,
        Ghost(h): Ghost<Heights>,
    ) -> (r: Result<Option<Flow>, Error>)
        requires
            h.stack_inside == st,
            h.locals_inside == lc,
            old(self).stack.len() >= st,
            old(self).local_stack.len() >= lc,
        ensures
            kept(*old(self), *final(self)),
            grows(old(host).log@, final(host).log@),
            forall|longer: Seq<Exchange>| #[trigger]
                extends(final(host).log@, longer) ==> sem_round(
                    state(*old(self), old(host).log@),
                    *for_expr,
                    h,
                    longer,
                ) == match r {
                    Ok(flow) => Sem::Done(
                        (state(*final(self), final(host).log@), flow_model(flow)),
                    ),
                    Err(e) => Sem::Fails(e@, final(host).log@.len()),
                },
            r is Ok ==> final(self).call_stack@ == old(self).call_stack@ && final(self).stack.len()
                >= st && final(self).local_stack.len() >= lc
                && final(self).budget < old(self).budget && same_bindings(
                old(self).local_stack@,
                final(self).local_stack@,
                lc as int,
            ),
            r matches Ok(Some(flow)) ==> handed_on(label_view(for_expr.label), flow@),
            r matches Ok(flow) ==> (flow matches Some(Flow::Return) || (final(self).stack.len()
                == st && final(self).local_stack.len() == lc)),
        decreases old(self).budget, 3nat,
    {
        if !self.operand(host, &for_expr.cond, Side::Right)? {
            return Ok(Some(Flow::Return));
        }
        let ghost s1 = state(*self, host.log@);
        let x = self.pop()?;
        assert(state(*self, host.log@) == s1.with_stack(s1.stack.drop_last()));
        let val = match resolve(&self.stack, &x) {
            Some(Variable::Bool(val)) => *val,
            Some(_) => {
                return Err(Error::new(ErrorKind::ExpectedBool));
            },
            None => {
                return Err(Error::new(ErrorKind::DanglingReference));
            },
        };
        if val {
            self.body(host, for_expr, st, lc, Ghost(h))
        } else {
            let ghost s4 = state(*self, host.log@);
            self.cut_to(st, lc);
            assert(state(*self, host.log@) == s4.cut_to(h.stack_inside, h.locals_inside));
            Ok(Some(Flow::Continue))
        }
    }

    /// Evaluates a loop, as `sem_for` says.
    ///
    /// The first expression is evaluated once. Then come the rounds, until
    /// one of them ends the loop. At the end of the loop both stacks are cut
    /// back to their heights before it. Where the loop returns from the
    /// function, the stacks stay as they are.
    pub fn for_expr<H: Host>(&mut self, host: &mut Recorder<H>, for_expr: &For) -> (r: Evaluation)
        ensures
            kept(*old(self), *final(self)),
            grows(old(host).log@, final(host).log@),
            forall|longer: Seq<Exchange>| #[trigger]
                extends(final(host).log@, longer) ==> sem_for(
                    state(*old(self), old(host).log@),
                    *for_expr,
                    longer,
                ) == outcome(r, *final(self), final(host).log@),
            r matches Ok((produced, flow)) ==> {
                &&& grown(*old(self), *final(self))
                &&& produced == Expect::Nothing
                &&& handed_on(label_view(for_expr.label), flow@)
                &&& !(flow is Return) ==> final(self).stack.len() == old(self).stack.len()
                    && final(self).local_stack@ =~= old(self).local_stack@
            },
        decreases old(self).budget, 4nat,
    {
        let prev_st = self.stack.len();
        let prev_lc = self.local_stack.len();
        if !self.statement(host, &for_expr.init)? {
            return Ok((Expect::Nothing, Flow::Return));
        }
        let st = self.stack.len();
        let lc = self.local_stack.len();
        let ghost h = Heights {
            stack_before: prev_st as int,
            locals_before: prev_lc as int,
            stack_inside: st as int,
            locals_inside: lc as int,
        };
        loop
            invariant
                kept(*old(self), *self),
                grows(old(host).log@, host.log@),
                grown(*old(self), *self),
                prev_st == old(self).stack.len(),
                prev_lc == old(self).local_stack.len(),
                self.stack.len() >= st >= prev_st,
                self.local_stack.len() >= lc >= prev_lc,
                h == (Heights {
                    stack_before: prev_st as int,
                    locals_before: prev_lc as int,
                    stack_inside: st as int,
                    locals_inside: lc as int,
                }),
                forall|longer: Seq<Exchange>| #[trigger]
                    extends(host.log@, longer) ==> sem_for(
                        state(*old(self), old(host).log@),
                        *for_expr,
                        longer,
                    ) == sem_rounds(state(*self, host.log@), *for_expr, h, longer),
            decreases self.budget,
        {
            match self.round(host, for_expr, st, lc, Ghost(h))? {
                None => {},
                Some(Flow::Return) => {
                    return Ok((Expect::Nothing, Flow::Return));
                },
                Some(flow) => {
                    let ghost s5 = state(*self, host.log@);
                    self.cut_to(prev_st, prev_lc);
                    assert(state(*self, host.log@) == s5.cut_to(h.stack_before, h.locals_before));
                                return Ok((Expect::Nothing, flow));
                },
            }
        }
    }
}

} // verus!
