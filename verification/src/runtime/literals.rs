//! Array and object literals.

use vstd::prelude::*;
use crate::ast::Expression;
use crate::error::{Error, ErrorKind};
use crate::flow::{Expect, Flow, Side};
use crate::host::{Exchange, Host, Recorder, extends, grows};
use crate::lookup::find_key;
use crate::runtime::{Evaluation, Runtime, grown, kept, outcome, settled, state};
use crate::semantics::{sem_array, sem_object};
use crate::shape::tidy;
use crate::value::{Value, Variable, array_model, entry_models, models, object_model};

verus! {

impl<'a> Runtime<'a> {
    /// Evaluates an array literal, as `sem_array` says: its items, one after the other, and
    /// leaves the array of their values on the stack.
    pub fn array<H: Host>(
        &mut self,
        host: &mut Recorder<H>,
        items: &Vec<Expression>,
    ) -> (r: Evaluation)
        ensures
            kept(*old(self), *final(self)),
            grows(old(host).log@, final(host).log@),
            forall|longer: Seq<Exchange>| #[trigger]
                extends(final(host).log@, longer) ==> sem_array(
                    state(*old(self), old(host).log@),
                    items@,
                    0,
                    Seq::empty(),
                    longer,
                ) == outcome(r, *final(self), final(host).log@),
            r matches Ok((produced, flow)) ==> {
                &&& grown(*old(self), *final(self))
                &&& produced == Expect::Something
                &&& flow is Continue || flow is Return
                &&& flow is Continue ==> settled(
                    *old(self),
                    *final(self),
                    produced,
                    0,
                    forall|i: int|
                        0 <= i < items.len() ==> tidy(old(self).functions@, #[trigger] items[i]),
                    false,
                ) && (final(self).stack@.last() matches Variable::Array(a) && a.len()
                    == items.len())
            },
        decreases old(self).budget, 2nat,
    {
        let mut array: Vec<Variable> = Vec::new();
        let ghost functions = self.functions@;
        let mut i: usize = 0;
        assert(models(array@) =~= Seq::empty());
        while i < items.len()
            invariant
                i <= items.len(),
                array.len() == i,
                kept(*old(self), *self),
                grows(old(host).log@, host.log@),
                grown(*old(self), *self),
                functions == old(self).functions@,
                self.local_stack.len() == old(self).local_stack.len(),
                (forall|j: int| 0 <= j < items.len() ==> tidy(functions, #[trigger] items[j]))
                    ==> self.stack.len() == old(self).stack.len(),
                forall|longer: Seq<Exchange>| #[trigger]
                    extends(host.log@, longer) ==> sem_array(
                        state(*old(self), old(host).log@),
                        items@,
                        0,
                        Seq::empty(),
                        longer,
                    ) == sem_array(
                        state(*self, host.log@),
                        items@,
                        i as nat,
                        models(array@),
                        longer,
                    ),
            decreases items.len() - i,
        {
            if !self.operand(host, &items[i], Side::Right)? {
                return Ok((Expect::Something, Flow::Return));
            }
            let ghost s1 = state(*self, host.log@);
            let x = self.pop()?;
            assert(state(*self, host.log@) == s1.with_stack(s1.stack.drop_last()));
            let ghost built = models(array@);
            array.push(x);
            assert(models(array@) =~= built.push(s1.stack.last()));
            i += 1;
        }
        let ghost s2 = state(*self, host.log@);
        let result = Variable::Array(array);
        proof {
            array_model(result);
        }
        self.push(result);
        assert(state(*self, host.log@) == s2.push(Value::Array(models(array@))));
        Ok((Expect::Something, Flow::Continue))
    }

    /// Evaluates an object literal, as `sem_object` says: the values of its entries, one after the
    /// other, and leaves the object on the stack. A key that occurs twice is
    /// a failure.
    pub fn object<H: Host>(
        &mut self,
        host: &mut Recorder<H>,
        entries: &Vec<(String, Expression)>,
    ) -> (r: Evaluation)
        ensures
            kept(*old(self), *final(self)),
            grows(old(host).log@, final(host).log@),
            forall|longer: Seq<Exchange>| #[trigger]
                extends(final(host).log@, longer) ==> sem_object(
                    state(*old(self), old(host).log@),
                    entries@,
                    0,
                    Seq::empty(),
                    longer,
                ) == outcome(r, *final(self), final(host).log@),
            r matches Ok((produced, flow)) ==> {
                &&& grown(*old(self), *final(self))
                &&& produced == Expect::Something
                &&& flow is Continue || flow is Return
                &&& flow is Continue ==> settled(
                    *old(self),
                    *final(self),
                    produced,
                    0,
                    forall|i: int|
                        0 <= i < entries.len() ==> tidy(
                            old(self).functions@,
                            #[trigger] entries[i].1,
                        ),
                    false,
                ) && (final(self).stack@.last() matches Variable::Object(o) && o.len()
                    == entries.len())
            },
        decreases old(self).budget, 2nat,
    {
        let mut object: Vec<(String, Variable)> = Vec::new();
        let ghost functions = self.functions@;
        let mut i: usize = 0;
        assert(entry_models(object@) =~= Seq::empty());
        while i < entries.len()
            invariant
                i <= entries.len(),
                object.len() == i,
                kept(*old(self), *self),
                grows(old(host).log@, host.log@),
                grown(*old(self), *self),
                functions == old(self).functions@,
                self.local_stack.len() == old(self).local_stack.len(),
                (forall|j: int|
                    0 <= j < entries.len() ==> tidy(functions, #[trigger] entries[j].1))
                    ==> self.stack.len() == old(self).stack.len(),
                forall|longer: Seq<Exchange>| #[trigger]
                    extends(host.log@, longer) ==> sem_object(
                        state(*old(self), old(host).log@),
                        entries@,
                        0,
                        Seq::empty(),
                        longer,
                    ) == sem_object(
                        state(*self, host.log@),
                        entries@,
                        i as nat,
                        entry_models(object@),
                        longer,
                    ),
            decreases entries.len() - i,
        {
            if !self.operand(host, &entries[i].1, Side::Right)? {
                return Ok((Expect::Something, Flow::Return));
            }
            let ghost s1 = state(*self, host.log@);
            let x = self.pop()?;
            assert(state(*self, host.log@) == s1.with_stack(s1.stack.drop_last()));
            if find_key(&object, &entries[i].0).is_some() {
                return Err(Error::about(ErrorKind::DuplicateKey, entries[i].0.as_str()));
            }
            let ghost built = entry_models(object@);
            let key = entries[i].0.clone();
            object.push((key, x));
            assert(entry_models(object@) =~= built.push((entries[i as int].0@, s1.stack.last())));
            i += 1;
        }
        let ghost s2 = state(*self, host.log@);
        let result = Variable::Object(object);
        proof {
            object_model(result);
        }
        self.push(result);
        assert(state(*self, host.log@) == s2.push(Value::Object(entry_models(object@))));
        Ok((Expect::Something, Flow::Continue))
    }
}

} // verus!
