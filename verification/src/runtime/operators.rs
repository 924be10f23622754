//! Comparisons and operators.

use vstd::prelude::*;
use crate::ast::{BinOpExpression, Compare, UnOpExpression};
use crate::error::{Error, ErrorKind};
use crate::flow::{Expect, Flow, Side};
use crate::host::{Exchange, Host, Recorder, extends, grows};
use crate::ops::{carry_out, compare_values, plan_binop, unop_value};
use crate::runtime::{Evaluation, Runtime, grown, kept, outcome, settled, state};
use crate::semantics::{State, sem_binop, sem_compare, sem_unop};
use crate::shape::tidy;
use crate::value::{Value, Variable, resolve};

verus! {

impl<'a> Runtime<'a> {
    /// Evaluates a comparison, as `sem_compare` says: both operands, the left one first, then the
    /// operator on their values, whose outcome it leaves on the stack.
    pub fn compare<H: Host>(&mut self, host: &mut Recorder<H>, compare: &Compare) -> (r: Evaluation)
        ensures
            kept(*old(self), *final(self)),
            grows(old(host).log@, final(host).log@),
            forall|longer: Seq<Exchange>| #[trigger]
                extends(final(host).log@, longer) ==> sem_compare(
                    state(*old(self), old(host).log@),
                    *compare,
                    longer,
                ) == outcome(r, *final(self), final(host).log@),
            r matches Ok((produced, flow)) ==> {
                &&& grown(*old(self), *final(self))
                &&& produced == Expect::Something
                &&& flow is Continue || flow is Return
                &&& flow is Continue ==> settled(
                    *old(self),
                    *final(self),
                    produced,
                    0,
                    tidy(old(self).functions@, compare.left) && tidy(
                        old(self).functions@,
                        compare.right,
                    ),
                    false,
                ) && final(self).stack@.last() is Bool
            },
        decreases old(self).budget, 2nat,
    {
        if !self.operand(host, &compare.left, Side::Right)? {
            return Ok((Expect::Something, Flow::Return));
        }
        if !self.operand(host, &compare.right, Side::Right)? {
            return Ok((Expect::Something, Flow::Return));
        }
        let ghost s2 = state(*self, host.log@);
        let right = self.pop()?;
        let left = self.pop()?;
        let ghost s3 = state(*self, host.log@);
        proof {
            assert(s2.stack.drop_last().drop_last() =~= s2.stack.take(s2.stack.len() - 2));
            assert(s3 == s2.with_stack(s2.stack.take(s2.stack.len() - 2)));
        }
        let outcome = match (resolve(&self.stack, &left), resolve(&self.stack, &right)) {
            (Some(a), Some(b)) => compare_values(compare.op, a, b)?,
            _ => {
                return Err(Error::new(ErrorKind::DanglingReference));
            },
        };
        self.push(Variable::Bool(outcome));
        proof {
            assert(state(*self, host.log@) == s3.push(Value::Bool(outcome)));
        }
        Ok((Expect::Something, Flow::Continue))
    }

    /// Evaluates a binary operator, as `sem_binop` says: both operands, the left one first, then
    /// the operator on their values, whose outcome it leaves on the stack.
    pub fn binop<H: Host>(
        &mut self,
        host: &mut Recorder<H>,
        binop: &BinOpExpression,
        side: Side,
    ) -> (r: Evaluation)
        ensures
            kept(*old(self), *final(self)),
            grows(old(host).log@, final(host).log@),
            forall|longer: Seq<Exchange>| #[trigger]
                extends(final(host).log@, longer) ==> sem_binop(
                    state(*old(self), old(host).log@),
                    *binop,
                    side,
                    longer,
                ) == outcome(r, *final(self), final(host).log@),
            r matches Ok((produced, flow)) ==> {
                &&& grown(*old(self), *final(self))
                &&& produced == Expect::Something
                &&& flow is Continue || flow is Return
                &&& flow is Continue ==> settled(
                    *old(self),
                    *final(self),
                    produced,
                    0,
                    tidy(old(self).functions@, binop.left) && tidy(
                        old(self).functions@,
                        binop.right,
                    ),
                    false,
                )
            },
        decreases old(self).budget, 2nat,
    {
        if !self.operand(host, &binop.left, side)? {
            return Ok((Expect::Something, Flow::Return));
        }
        if !self.operand(host, &binop.right, side)? {
            return Ok((Expect::Something, Flow::Return));
        }
        let ghost s2 = state(*self, host.log@);
        let right = self.pop()?;
        let left = self.pop()?;
        let ghost s3 = state(*self, host.log@);
        proof {
            assert(s2.stack.drop_last().drop_last() =~= s2.stack.take(s2.stack.len() - 2));
            assert(s3 == s2.with_stack(s2.stack.take(s2.stack.len() - 2)));
        }
        let plan = match (resolve(&self.stack, &left), resolve(&self.stack, &right)) {
            (Some(a), Some(b)) => plan_binop(binop.op, a, b)?,
            _ => {
                return Err(Error::new(ErrorKind::DanglingReference));
            },
        };
        let outcome = carry_out(host, plan);
        self.push(outcome);
        proof {
            assert(state(*self, host.log@) == State { asked: host.log@.len(), ..s3 }.push(
                outcome@,
            ));
        }
        Ok((Expect::Something, Flow::Continue))
    }

    /// Evaluates a unary operator, as `sem_unop` says: the operand, then the operator on its
    /// value, whose outcome it leaves on the stack.
    pub fn unop<H: Host>(
        &mut self,
        host: &mut Recorder<H>,
        unop: &UnOpExpression,
        side: Side,
    ) -> (r: Evaluation)
        ensures
            kept(*old(self), *final(self)),
            grows(old(host).log@, final(host).log@),
            forall|longer: Seq<Exchange>| #[trigger]
                extends(final(host).log@, longer) ==> sem_unop(
                    state(*old(self), old(host).log@),
                    *unop,
                    side,
                    longer,
                ) == outcome(r, *final(self), final(host).log@),
            r matches Ok((produced, flow)) ==> {
                &&& grown(*old(self), *final(self))
                &&& produced == Expect::Something
                &&& flow is Continue || flow is Return
                &&& flow is Continue ==> settled(
                    *old(self),
                    *final(self),
                    produced,
                    0,
                    tidy(old(self).functions@, unop.expr),
                    false,
                ) && final(self).stack@.last() is Bool
            },
        decreases old(self).budget, 2nat,
    {
        let ghost s0 = state(*self, host.log@);
        if !self.operand(host, &unop.expr, side)? {
            return Ok((Expect::Something, Flow::Return));
        }
        let ghost s1 = state(*self, host.log@);
        let val = self.pop()?;
        let outcome = match resolve(&self.stack, &val) {
            Some(v) => unop_value(unop.op, v)?,
            None => {
                return Err(Error::new(ErrorKind::DanglingReference));
            },
        };
        self.push(outcome);
        proof {
            assert(state(*self, host.log@) == s1.with_stack(s1.stack.drop_last().push(outcome@)));
        }
        Ok((Expect::Something, Flow::Continue))
    }
}

} // verus!
