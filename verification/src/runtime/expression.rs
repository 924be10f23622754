//! The evaluation of an expression of any kind.

use vstd::prelude::*;
use crate::ast::{Assign, Block, Call, Compare, Expression, For, If, Item};
use crate::error::{Error, ErrorKind};
use crate::flow::{Expect, Flow, Side};
use crate::host::{Exchange, Host, Recorder, extends, extends_itself, grows};
use crate::kept::expression_keeps;
use crate::keys::all_well_formed;
use crate::runtime::{
    Evaluation, Runtime, copy_label, declared, grown, kept, literal, may_flow, outcome, produces,
    settled, state, went,
};
use crate::semantics::{sem_expression, sem_operand};
use crate::shape::{bindings, quiet, tidy};
use crate::value::{Variable, models};

verus! {

impl<'a> Runtime<'a> {
    /// Evaluates an expression, as `sem_expression` says of the record of
    /// this evaluation, and of every record that goes on from it.
    ///
    /// Takes one step of the budget, and fails where none is left. What
    /// an expression of each kind leaves on the stacks when it flows on is
    /// stated by `settled`, and what its flow can be by `may_flow`. The keys
    /// of objects stay distinct.
    pub fn expression<H: Host>(
        &mut self,
        host: &mut Recorder<H>,
        expr: &Expression,
        side: Side,
    ) -> (r: Evaluation)
        ensures
            kept(*old(self), *final(self)),
            grows(old(host).log@, final(host).log@),
            forall|longer: Seq<Exchange>| #[trigger]
                extends(final(host).log@, longer) ==> sem_expression(
                    state(*old(self), old(host).log@),
                    *expr,
                    side,
                    longer,
                ) == outcome(r, *final(self), final(host).log@),
            sem_expression(state(*old(self), old(host).log@), *expr, side, final(host).log@)
                == outcome(r, *final(self), final(host).log@),
            all_well_formed(models(old(self).stack@)) && r is Ok ==> all_well_formed(
                models(final(self).stack@),
            ),
            r is Ok ==> final(self).budget < old(self).budget,
            old(self).budget == 0 ==> r is Err,
            r matches Ok((produced, flow)) ==> {
                &&& grown(*old(self), *final(self))
                &&& may_flow(*expr, flow@)
                &&& flow is Continue ==> (declared(*expr) matches Some(x) ==> produced == x)
                &&& flow is Continue ==> settled(
                    *old(self),
                    *final(self),
                    produced,
                    bindings(*expr),
                    tidy(old(self).functions@, *expr),
                    quiet(old(self).functions@, *expr),
                )
            },
            old(self).budget > 0 ==> (literal(*expr) matches Some(v) ==> produces(
                old(self).stack@,
                final(self).stack@,
                r,
                v,
            )),
            old(self).budget > 0 && (expr is Break || expr is Continue) ==> r is Ok
                && final(self).stack@ == old(self).stack@,
        decreases old(self).budget, 0nat,
    {
        if self.budget == 0 {
            proof {
                extends_itself(host.log@);
            }
            return Err(Error::new(ErrorKind::OutOfBudget));
        }
        self.budget = self.budget - 1;
        let r = match expr {
            Expression::Number(n) => {
                self.push(Variable::Number(*n));
                assert(self.stack@.drop_last() =~= old(self).stack@);
                Ok((Expect::Something, Flow::Continue))
            },
            Expression::Text(t) => {
                self.push(Variable::Text(t.clone()));
                assert(self.stack@.drop_last() =~= old(self).stack@);
                Ok((Expect::Something, Flow::Continue))
            },
            Expression::Bool(b) => {
                self.push(Variable::Bool(*b));
                assert(self.stack@.drop_last() =~= old(self).stack@);
                Ok((Expect::Something, Flow::Continue))
            },
            Expression::Object(entries) => self.object(host, entries),
            Expression::Array(items) => self.array(host, items),
            Expression::UnOp(u) => self.unop(host, u, side),
            Expression::BinOp(b) => self.binop(host, b, side),
            Expression::Compare(c) => self.compare(host, c),
            Expression::Item(item) => self.item(host, item, side),
            Expression::Assign(a) => self.assign(host, a),
            Expression::Return(e) => self.return_expr(host, e),
            Expression::Call(c) => self.call(host, c),
            Expression::For(f) => self.for_expr(host, f),
            Expression::Block(b) => self.block(host, b),
            Expression::If(i) => self.if_expr(host, i),
            Expression::Break(l) => Ok((Expect::Nothing, Flow::Break(copy_label(l)))),
            Expression::Continue(l) => Ok((Expect::Nothing, Flow::ContinueLoop(copy_label(l)))),
        };
        proof {
            extends_itself(host.log@);
            if all_well_formed(models(old(self).stack@)) {
                expression_keeps(state(*old(self), old(host).log@), *expr, side, host.log@);
            }
        }
        r
    }

    /// Evaluates an expression whose value is needed, as `sem_operand`
    /// says. Returns whether the value is on the stack; the evaluation
    /// flowed on then. Where it is not, the evaluation returned from the
    /// function. Any other flow, and an expression that flows on without a
    /// value, is a failure.
    pub(crate) fn operand<H: Host>(
        &mut self,
        host: &mut Recorder<H>,
        expr: &Expression,
        side: Side,
    ) -> (r: Result<bool, Error>)
        ensures
            kept(*old(self), *final(self)),
            grows(old(host).log@, final(host).log@),
            forall|longer: Seq<Exchange>| #[trigger]
                extends(final(host).log@, longer) ==> sem_operand(
                    state(*old(self), old(host).log@),
                    *expr,
                    side,
                    longer,
                ) == went(r, *final(self), final(host).log@),
            r is Ok ==> grown(*old(self), *final(self)) && final(self).budget < old(self).budget,
            r == Ok::<bool, Error>(true) ==> settled(
                *old(self),
                *final(self),
                Expect::Something,
                0,
                tidy(old(self).functions@, *expr),
                false,
            ),
        decreases old(self).budget, 1nat,
    {
        match self.expression(host, expr, side) {
            Ok((_, Flow::Return)) => Ok(false),
            Ok((Expect::Something, Flow::Continue)) => Ok(true),
            Ok(_) => Err(Error::new(ErrorKind::ExpectedSomething)),
            Err(e) => Err(e),
        }
    }
}

} // verus!
