//! Assignments and returns.

use vstd::prelude::*;
use crate::assign::commit;
use crate::ast::{Assign, AssignOp, Expression, Item};
use crate::error::{Error, ErrorKind, fault, fault_about};
use crate::flow::{Expect, Flow, Side};
use crate::host::{Exchange, Host, Recorder, extends, grows};
use crate::lookup::{Segment, emit_item, local_models, segment_models};
use crate::runtime::{Evaluation, Runtime, fails_with, grown, kept, outcome, settled, state};
use crate::semantics::{State, sem_assign, sem_return, sem_update};
use crate::shape::tidy;
use crate::value::{Variable, models};

verus! {

/// Whether the latest local binding binds the name of the item `left` to
/// the slot on top of the value stack.
pub open spec fn bound_on_top(rt: Runtime, left: Expression) -> bool {
    &&& left matches Expression::Item(item)
    &&& rt.local_stack@.len() > 0
    &&& rt.local_stack@.last().0@ == item.name@
    &&& rt.local_stack@.last().1 == rt.stack.len() - 1
}

impl<'a> Runtime<'a> {
    /// Evaluates an assignment, as `sem_assign` says.
    pub fn assign<H: Host>(&mut self, host: &mut Recorder<H>, assign: &Assign) -> (r: Evaluation)
        ensures
            kept(*old(self), *final(self)),
            grows(old(host).log@, final(host).log@),
            forall|longer: Seq<Exchange>| #[trigger]
                extends(final(host).log@, longer) ==> sem_assign(
                    state(*old(self), old(host).log@),
                    assign.op,
                    assign.left,
                    assign.right,
                    longer,
                ) == outcome(r, *final(self), final(host).log@),
            r matches Ok((produced, flow)) ==> {
                &&& grown(*old(self), *final(self))
                &&& produced == Expect::Nothing
                &&& flow is Continue || flow is Return
                &&& flow is Continue ==> settled(
                    *old(self),
                    *final(self),
                    produced,
                    if assign.op == AssignOp::Declare {
                        1
                    } else {
                        0
                    },
                    assign.op != AssignOp::Declare && tidy(old(self).functions@, assign.left)
                        && tidy(old(self).functions@, assign.right),
                    true,
                )
            },
        decreases old(self).budget, 3nat,
    {
        self.assign_specific(host, assign.op, &assign.left, &assign.right)
    }

    /// Evaluates the assignment `left op right`, as `sem_assign` says.
    ///
    /// A declaring assignment evaluates the right side, follows its value
    /// once where it is a reference, leaves the value on the stack and binds
    /// the name on the left to its slot, as a new local of the current frame.
    ///
    /// An updating assignment evaluates the right side, then the left side
    /// for its slot, takes both from the stack and carries the assignment
    /// out as `committed` says. A key that the addressed object lacks is
    /// inserted for `=` only.
    pub fn assign_specific<H: Host>(
        &mut self,
        host: &mut Recorder<H>,
        op: AssignOp,
        left: &Expression,
        right: &Expression,
    ) -> (r: Evaluation)
        ensures
            kept(*old(self), *final(self)),
            grows(old(host).log@, final(host).log@),
            forall|longer: Seq<Exchange>| #[trigger]
                extends(final(host).log@, longer) ==> sem_assign(
                    state(*old(self), old(host).log@),
                    op,
                    *left,
                    *right,
                    longer,
                ) == outcome(r, *final(self), final(host).log@),
            r matches Ok((produced, flow)) ==> {
                &&& grown(*old(self), *final(self))
                &&& produced == Expect::Nothing
                &&& flow is Continue || flow is Return
                &&& flow is Continue ==> settled(
                    *old(self),
                    *final(self),
                    produced,
                    if op == AssignOp::Declare {
                        1
                    } else {
                        0
                    },
                    op != AssignOp::Declare && tidy(old(self).functions@, *left) && tidy(
                        old(self).functions@,
                        *right,
                    ),
                    true,
                )
                &&& flow is Continue && op == AssignOp::Declare ==> bound_on_top(
                    *final(self),
                    *left,
                )
            },
            op == AssignOp::Declare && !(left is Item) ==> fails_with(
                r,
                fault(ErrorKind::ExpectedItem),
            ),
            op == AssignOp::Declare ==> (left matches Expression::Item(item) ==> (item.ids.len()
                > 0 ==> fails_with(
                r,
                fault_about(ErrorKind::DeclareThroughPath, item.name@),
            ))),
        decreases old(self).budget, 2nat,
    {
        if let AssignOp::Declare = op {
            let item = match left {
                Expression::Item(item) => item,
                _ => {
                    return Err(Error::new(ErrorKind::ExpectedItem));
                },
            };
            if item.ids.len() != 0 {
                return Err(Error::about(ErrorKind::DeclareThroughPath, item.name.as_str()));
            }
            if !self.operand(host, right, Side::Right)? {
                return Ok((Expect::Nothing, Flow::Return));
            }
            let ghost s1 = state(*self, host.log@);
            let v = self.pop()?;
            let v = match v {
                Variable::StackRef(ind) => {
                    if ind < self.stack.len() {
                        assert(models(self.stack@)[ind as int] == self.stack@[ind as int]@);
                        self.stack[ind].copy()
                    } else {
                        return Err(Error::new(ErrorKind::DanglingReference));
                    }
                },
                Variable::RawRef(_) => {
                    return Err(Error::new(ErrorKind::RawReference));
                },
                x => x,
            };
            let ghost locals = local_models(self.local_stack@);
            let slot = self.stack.len();
            self.local_stack.push((item.name.clone(), slot));
            assert(local_models(self.local_stack@) =~= locals.push((item.name@, slot)));
            self.push(v);
            assert(state(*self, host.log@) == (State {
                stack: s1.stack.drop_last().push(v@),
                locals: s1.locals.push((item.name@, slot)),
                ..s1
            }));
            Ok((Expect::Nothing, Flow::Continue))
        } else {
            if !self.operand(host, right, Side::Right)? {
                return Ok((Expect::Nothing, Flow::Return));
            }
            let insert = match op {
                AssignOp::Store => true,
                _ => false,
            };
            if !self.operand(host, left, Side::LeftInsert(insert))? {
                return Ok((Expect::Nothing, Flow::Return));
            }
            self.update(host, op)?;
            Ok((Expect::Nothing, Flow::Continue))
        }
    }

    /// Ends an updating assignment, as `sem_update` says: takes the handle
    /// and the value from the stack and carries the assignment out.
    pub fn update<H: Host>(
        &mut self,
        host: &mut Recorder<H>,
        op: AssignOp,
    ) -> (r: Result<(), Error>)
        ensures
            kept(*old(self), *final(self)),
            grows(old(host).log@, final(host).log@),
            forall|longer: Seq<Exchange>| #[trigger]
                extends(final(host).log@, longer) ==> sem_update(
                    state(*old(self), old(host).log@),
                    op,
                    longer,
                ) == outcome(
                    match r {
                        Ok(_) => Ok((Expect::Nothing, Flow::Continue)),
                        Err(e) => Err(e),
                    },
                    *final(self),
                    final(host).log@,
                ),
            r is Ok ==> {
                &&& final(self).call_stack@ == old(self).call_stack@
                &&& final(self).local_stack@ == old(self).local_stack@
                &&& final(self).budget == old(self).budget
                &&& final(self).stack.len() + 2 == old(self).stack.len()
            },
    {
        let ghost s0 = state(*self, host.log@);
        let handle = self.pop()?;
        let value = self.pop()?;
        let ghost s1 = state(*self, host.log@);
        proof {
            assert(s0.stack.drop_last().drop_last() =~= s0.stack.take(s0.stack.len() - 2));
            assert(s1 == s0.with_stack(s0.stack.take(s0.stack.len() - 2)));
        }
        commit(host, &mut self.stack, op, handle, value)?;
        assert(state(*self, host.log@) == (State {
            stack: models(self.stack@),
            asked: host.log@.len(),
            ..s1
        }));
        Ok(())
    }

    /// Evaluates a return, as `sem_return` says: assigns the value of the expression to the
    /// return slot of the function, as `return = value` does, and returns.
    pub fn return_expr<H: Host>(
        &mut self,
        host: &mut Recorder<H>,
        value: &Expression,
    ) -> (r: Evaluation)
        ensures
            kept(*old(self), *final(self)),
            grows(old(host).log@, final(host).log@),
            forall|longer: Seq<Exchange>| #[trigger]
                extends(final(host).log@, longer) ==> sem_return(
                    state(*old(self), old(host).log@),
                    *value,
                    longer,
                ) == outcome(r, *final(self), final(host).log@),
            r matches Ok((produced, flow)) ==> {
                &&& grown(*old(self), *final(self))
                &&& flow is Return
            },
        decreases old(self).budget, 3nat,
    {
        if !self.operand(host, value, Side::Right)? {
            return Ok((Expect::Something, Flow::Return));
        }
        let ghost s1 = state(*self, host.log@);
        let segments: Vec<Segment> = Vec::new();
        assert(segment_models(segments@) =~= Seq::empty());
        let base = self.stack.len();
        let depth = self.stack.len();
        emit_item(
            &mut self.stack,
            &self.local_stack,
            &self.call_stack,
            &self.ret,
            &segments,
            Side::LeftInsert(true),
            base,
            depth,
        )?;
        assert(state(*self, host.log@) == s1.with_stack(models(self.stack@)));
        self.update(host, AssignOp::Store)?;
        Ok((Expect::Something, Flow::Return))
    }
}

} // verus!
