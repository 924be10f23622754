//! Calls, and the run of a program.

use vstd::prelude::*;
use crate::ast::{Call, Expression, Function};
use crate::builtins::{Builtin, apply, arity_of, builtin, find_function, function_index, returns_of};
use crate::error::{Error, ErrorKind, fault, fault_about};
use crate::flow::{Expect, Flow, Side, call_outcome};
use crate::host::{Exchange, Host, Recorder, extends, extends_itself, grows};
use crate::kept::main_keeps;
use crate::keys::all_well_formed;
use crate::lookup::{frame_models, local_models};
use crate::runtime::{Evaluation, Runtime, fails_with, grown, kept, outcome, same_bindings, state};
use crate::semantics::{
    Sem, State, argument_value, bound, entered, owned, sem_arguments, sem_call, sem_intrinsic,
    sem_invoke, sem_leave, sem_main,
};
use crate::shape::bindings;
use crate::text::{arity_detail, arity_text};
use crate::value::{Value, Variable, cut, models};

verus! {

/// Whether the function `main` is there and has parameters.
pub open spec fn has_parameters(functions: Seq<&Function>) -> bool {
    function_index(functions, "main"@) matches Some(i) && functions[i].args.len() > 0
}

/// The state in which the run of a program begins: the state from before,
/// with the functions that are registered now.
pub open spec fn registered<'a>(
    before: Runtime<'a>,
    after: Runtime<'a>,
    record: Seq<Exchange>,
) -> State<'a> {
    State { functions: after.functions@, ..state(before, record) }
}

impl<'a> Runtime<'a> {
    /// Evaluates the arguments of a call, one after the other, as
    /// `sem_arguments` says. Returns the stack slot of each argument's
    /// value; or nothing, where an argument returned from the function.
    pub fn arguments<H: Host>(&mut self, host: &mut Recorder<H>, args: &Vec<Expression>) -> (r:
        Result<Option<Vec<usize>>, Error>)
        ensures
            kept(*old(self), *final(self)),
            grows(old(host).log@, final(host).log@),
            forall|longer: Seq<Exchange>| #[trigger]
                extends(final(host).log@, longer) ==> sem_arguments(
                    state(*old(self), old(host).log@),
                    args@,
                    0,
                    Seq::empty(),
                    longer,
                ) == match r {
                    Ok(Some(slots)) => Sem::Done(
                        (state(*final(self), final(host).log@), Some(slots@)),
                    ),
                    Ok(None) => Sem::Done((state(*final(self), final(host).log@), None)),
                    Err(e) => Sem::Fails(e@, final(host).log@.len()),
                },
            r is Ok ==> grown(*old(self), *final(self)),
            r matches Ok(Some(slots)) ==> {
                &&& slots.len() == args.len()
                &&& forall|i: int| 0 <= i < slots.len() ==> slots[i] < final(self).stack.len()
                &&& args.len() > 0 ==> final(self).stack.len() > old(self).stack.len()
                &&& final(self).local_stack@ =~= old(self).local_stack@
            },
            args.len() == 0 ==> r matches Ok(Some(_)),
        decreases old(self).budget, 2nat,
    {
        let mut slots: Vec<usize> = Vec::new();
        let mut i: usize = 0;
        while i < args.len()
            invariant
                i <= args.len(),
                slots.len() == i,
                kept(*old(self), *self),
                grows(old(host).log@, host.log@),
                grown(*old(self), *self),
                forall|j: int| 0 <= j < slots.len() ==> slots[j] < self.stack.len(),
                i > 0 ==> self.stack.len() > old(self).stack.len(),
                self.local_stack.len() == old(self).local_stack.len(),
                forall|longer: Seq<Exchange>| #[trigger]
                    extends(host.log@, longer) ==> sem_arguments(
                        state(*old(self), old(host).log@),
                        args@,
                        0,
                        Seq::empty(),
                        longer,
                    ) == sem_arguments(state(*self, host.log@), args@, i as nat, slots@, longer),
            decreases args.len() - i,
        {
            if !self.operand(host, &args[i], Side::Right)? {
                return Ok(None);
            }
            slots.push(self.stack.len() - 1);
            i += 1;
        }
        Ok(Some(slots))
    }

    /// Begins the call of a user-defined function, as `entered` says: a
    /// frame is added, and each parameter is bound to the slot of its own
    /// argument. Where an argument is a reference, its slot gets a copy of
    /// the value referred to, so that an assignment to the parameter leaves
    /// the caller's slot as it is.
    pub(crate) fn enter(
        &mut self,
        name: &String,
        f: &Function,
        slots: &Vec<usize>,
        st: usize,
        lc: usize,
    )
        requires
            f.returns ==> st > 0,
            forall|j: int| 0 <= j < slots.len() ==> slots[j] < old(self).stack.len(),
            slots.len() == f.args.len(),
        ensures
            final(self).stack.len() == old(self).stack.len(),
            final(self).functions == old(self).functions,
            final(self).ret == old(self).ret,
            final(self).budget == old(self).budget,
            final(self).call_stack@ == old(self).call_stack@.push((*name, st, lc)),
            final(self).local_stack.len() >= old(self).local_stack.len(),
            same_bindings(
                old(self).local_stack@,
                final(self).local_stack@,
                old(self).local_stack.len() as int,
            ),
            forall|record: Seq<Exchange>|
                #[trigger] state(*final(self), record) == entered(
                    state(*old(self), record),
                    name@,
                    *f,
                    slots@,
                    st,
                    lc,
                ),
    {
        let ghost frames = frame_models(self.call_stack@);
        self.call_stack.push((name.clone(), st, lc));
        assert(frame_models(self.call_stack@) =~= frames.push((name@, st, lc)));
        let ghost locals = local_models(self.local_stack@);
        if f.returns {
            self.local_stack.push((self.ret.clone(), st - 1));
            assert(local_models(self.local_stack@) =~= locals.push((self.ret@, (st - 1) as usize)));
        }
        let ghost begun = local_models(self.local_stack@);
        let ghost stack = models(self.stack@);
        let mut i: usize = 0;
        while i < f.args.len()
            invariant
                i <= f.args.len(),
                f.args.len() == slots.len(),
                forall|j: int| 0 <= j < slots.len() ==> slots[j] < self.stack.len(),
                self.stack.len() == old(self).stack.len(),
                self.functions == old(self).functions,
                self.ret == old(self).ret,
                self.budget == old(self).budget,
                self.call_stack@ == old(self).call_stack@.push((*name, st, lc)),
                frame_models(self.call_stack@) == frames.push((name@, st, lc)),
                self.local_stack.len() >= old(self).local_stack.len(),
                same_bindings(
                    old(self).local_stack@,
                    self.local_stack@,
                    old(self).local_stack.len() as int,
                ),
                owned(stack, slots@, 0) == owned(models(self.stack@), slots@, i as nat),
                bound(begun, f.args@, slots@, 0) == bound(
                    local_models(self.local_stack@),
                    f.args@,
                    slots@,
                    i as nat,
                ),
            decreases f.args.len() - i,
        {
            let slot = slots[i];
            let ghost values = models(self.stack@);
            assert(values[slot as int] == self.stack@[slot as int]@);
            let own = match &self.stack[slot] {
                Variable::StackRef(ind) => {
                    if *ind < self.stack.len() {
                        assert(values[*ind as int] == self.stack@[*ind as int]@);
                        Some(self.stack[*ind].copy())
                    } else {
                        None
                    }
                },
                _ => None,
            };
            match own {
                Some(v) => {
                    self.stack[slot] = v;
                    assert(models(self.stack@) =~= values.update(
                        slot as int,
                        argument_value(values, slot),
                    ));
                },
                None => {
                    assert(values.update(slot as int, argument_value(values, slot)) =~= values);
                },
            }
            let ghost before = local_models(self.local_stack@);
            self.local_stack.push((f.args[i].name.clone(), slot));
            assert(local_models(self.local_stack@) =~= before.push((f.args[i as int].name@, slot)));
            i += 1;
        }
    }

    /// Ends the call of a user-defined function, as `sem_leave` says. The
    /// last frame is that of the call: it bears the name `name` and holds
    /// the heights `st` and `lc`.
    pub(crate) fn leave(
        &mut self,
        name: &String,
        st: usize,
        lc: usize,
        declared: bool,
        produced: Expect,
    ) -> (r: Evaluation)
        requires
            old(self).call_stack.len() > 0,
            old(self).call_stack@.last() == (*name, st, lc),
        ensures
            final(self).functions == old(self).functions,
            final(self).ret == old(self).ret,
            final(self).budget == old(self).budget,
            final(self).call_stack@ == old(self).call_stack@.drop_last(),
            final(self).stack@ == cut(old(self).stack@, st as int),
            final(self).local_stack@ == cut(old(self).local_stack@, lc as int),
            forall|record: Seq<Exchange>|
                #[trigger] sem_leave(state(*old(self), record), st, lc, declared, produced)
                    == outcome(r, *final(self), record),
            r matches Ok((x, flow)) ==> flow is Continue && (x == Expect::Something <==> declared),
    {
        let ghost frames = frame_models(self.call_stack@);
        self.call_stack.pop();
        assert(frame_models(self.call_stack@) =~= frames.drop_last());
        self.cut_to(st, lc);
        let expect = if self.stack.len() > 0 {
            assert(models(self.stack@).last() == self.stack@.last()@);
            finish_call(declared, produced, Some(&self.stack[self.stack.len() - 1]))?
        } else {
            finish_call(declared, produced, None)?
        };
        Ok((expect, Flow::Continue))
    }

    /// Calls the user-defined function `f` by the name `name`, as
    /// `sem_invoke` says. A break or a continue that leaves the body fails
    /// with its label.
    pub fn invoke<H: Host>(
        &mut self,
        host: &mut Recorder<H>,
        name: &String,
        f: &'a Function,
        args: &Vec<Expression>,
    ) -> (r: Evaluation)
        ensures
            kept(*old(self), *final(self)),
            grows(old(host).log@, final(host).log@),
            forall|longer: Seq<Exchange>| #[trigger]
                extends(final(host).log@, longer) ==> sem_invoke(
                    state(*old(self), old(host).log@),
                    name@,
                    *f,
                    args@,
                    longer,
                ) == outcome(r, *final(self), final(host).log@),
            r matches Ok((produced, flow)) ==> {
                &&& grown(*old(self), *final(self))
                &&& flow is Continue || flow is Return
                &&& args.len() == 0 ==> flow is Continue
                &&& flow is Continue ==> {
                    &&& final(self).stack.len() == old(self).stack.len() + produced.count()
                    &&& final(self).local_stack@ =~= old(self).local_stack@
                    &&& (produced == Expect::Something) == f.returns
                }
            },
            args.len() != f.args.len() ==> fails_with(
                r,
                fault_about(
                    ErrorKind::Arity,
                    arity_detail(name@, f.args.len() as nat, args.len() as nat),
                ),
            ) && final(host).log@ == old(host).log@,
        decreases old(self).budget, 3nat,
    {
        if args.len() != f.args.len() {
            let detail = arity_text(name, f.args.len(), args.len());
            return Err(Error::about(ErrorKind::Arity, detail.as_str()));
        }
        let ghost s = state(*self, host.log@);
        if f.returns {
            self.push(Variable::Return);
        }
        let ghost s0 = state(*self, host.log@);
        assert(s0 == if f.returns {
            s.push(Value::Return)
        } else {
            s
        });
        let st = self.stack.len();
        let lc = self.local_stack.len();
        let slots = match self.arguments(host, args)? {
            Some(slots) => slots,
            None => {
                return Ok((Expect::Something, Flow::Return));
            },
        };
        self.enter(name, f, &slots, st, lc);
        let (produced, flow) = self.block(host, &f.block)?;
        match flow {
            Flow::Break(label) => {
                return Err(
                    match label {
                        Some(l) => Error::about(ErrorKind::BreakFromFunction, l.as_str()),
                        None => Error::new(ErrorKind::BreakFromFunction),
                    },
                );
            },
            Flow::ContinueLoop(label) => {
                return Err(
                    match label {
                        Some(l) => Error::about(ErrorKind::ContinueFromFunction, l.as_str()),
                        None => Error::new(ErrorKind::ContinueFromFunction),
                    },
                );
            },
            _ => {},
        }
        let ghost pushed = self.call_stack@;
        let r = self.leave(name, st, lc, f.returns, produced);
        assert(self.call_stack@ =~= old(self).call_stack@);
        r
    }

    /// Calls the built-in procedure `b`, as `sem_intrinsic` says.
    pub fn intrinsic<H: Host>(
        &mut self,
        host: &mut Recorder<H>,
        name: &String,
        b: Builtin,
        args: &Vec<Expression>,
    ) -> (r: Evaluation)
        ensures
            kept(*old(self), *final(self)),
            grows(old(host).log@, final(host).log@),
            forall|longer: Seq<Exchange>| #[trigger]
                extends(final(host).log@, longer) ==> sem_intrinsic(
                    state(*old(self), old(host).log@),
                    name@,
                    b,
                    args@,
                    longer,
                ) == outcome(r, *final(self), final(host).log@),
            r matches Ok((produced, flow)) ==> {
                &&& grown(*old(self), *final(self))
                &&& flow is Continue || flow is Return
                &&& args.len() == 0 ==> flow is Continue
                &&& flow is Continue ==> {
                    &&& final(self).stack.len() == old(self).stack.len() + produced.count()
                    &&& final(self).local_stack@ =~= old(self).local_stack@
                    &&& (produced == Expect::Something) == b.has_value()
                }
            },
            args.len() != b.arity() ==> fails_with(
                r,
                fault_about(ErrorKind::Arity, arity_detail(name@, b.arity(), args.len() as nat)),
            ) && final(host).log@ == old(host).log@,
        decreases old(self).budget, 3nat,
    {
        if args.len() != b.argument_count() {
            let detail = arity_text(name, b.argument_count(), args.len());
            return Err(Error::about(ErrorKind::Arity, detail.as_str()));
        }
        let base = self.stack.len();
        match self.arguments(host, args)? {
            Some(_) => {},
            None => {
                return Ok((Expect::Something, Flow::Return));
            },
        }
        let ghost s1 = state(*self, host.log@);
        let arg = if args.len() > 0 {
            Some(self.pop()?)
        } else {
            None
        };
        let ghost s2 = state(*self, host.log@);
        assert(s2 == if args.len() > 0 {
            s1.with_stack(s1.stack.drop_last())
        } else {
            s1
        });
        let answer = apply(
            host,
            &mut self.rng,
            &self.stack,
            &self.local_stack,
            &self.call_stack,
            &mut self.budget,
            b,
            arg,
        )?;
        let ghost s3 = state(*self, host.log@);
        self.cut_to(base, self.local_stack.len());
        let ghost s4 = state(*self, host.log@);
        assert(cut(s3.locals, s3.locals.len() as int) =~= s3.locals);
        assert(s4 == (State {
            stack: cut(s2.stack, base as int),
            budget: self.budget as nat,
            asked: host.log@.len(),
            ..s2
        }));
        match answer {
            Some(v) => {
                self.push(v);
                assert(state(*self, host.log@) == s4.push(v@));
                Ok((Expect::Something, Flow::Continue))
            },
            None => Ok((Expect::Nothing, Flow::Continue)),
        }
    }

    /// Evaluates a call, as `sem_call` says: of the user-defined function of
    /// that name, else of the built-in procedure of that name.
    ///
    /// A call that is done has left on the value stack the value that it
    /// yields, if it yields one, and nothing else; the local bindings are
    /// those from before. A call of a name that nothing has, or with another
    /// number of arguments than the callee takes, fails with that name, and
    /// with the two numbers, before anything is evaluated or asked of the
    /// host.
    pub fn call<H: Host>(&mut self, host: &mut Recorder<H>, call: &Call) -> (r: Evaluation)
        ensures
            kept(*old(self), *final(self)),
            grows(old(host).log@, final(host).log@),
            forall|longer: Seq<Exchange>| #[trigger]
                extends(final(host).log@, longer) ==> sem_call(
                    state(*old(self), old(host).log@),
                    call.name@,
                    call.args@,
                    longer,
                ) == outcome(r, *final(self), final(host).log@),
            r matches Ok((produced, flow)) ==> {
                &&& grown(*old(self), *final(self))
                &&& flow is Continue || flow is Return
                &&& call.args.len() == 0 ==> flow is Continue
                &&& flow is Continue ==> {
                    &&& final(self).stack.len() == old(self).stack.len() + produced.count()
                    &&& final(self).local_stack@ =~= old(self).local_stack@
                    &&& returns_of(old(self).functions@, call.name@) == Some(
                        produced == Expect::Something,
                    )
                }
            },
            match arity_of(old(self).functions@, call.name@) {
                None => fails_with(r, fault_about(ErrorKind::UnknownFunction, call.name@))
                    && final(host).log@ == old(host).log@,
                Some(n) => n != call.args.len() ==> fails_with(
                    r,
                    fault_about(
                        ErrorKind::Arity,
                        arity_detail(call.name@, n, call.args.len() as nat),
                    ),
                ) && final(host).log@ == old(host).log@,
            },
        decreases old(self).budget, 4nat,
    {
        match find_function(&self.functions, &call.name) {
            Some(index) => {
                let f: &'a Function = self.functions[index];
                self.invoke(host, &call.name, f, &call.args)
            },
            None => match builtin(&call.name) {
                Some(b) => self.intrinsic(host, &call.name, b, &call.args),
                None => Err(Error::about(ErrorKind::UnknownFunction, call.name.as_str())),
            },
        }
    }

    /// Registers a function. It replaces an earlier one of the same name.
    pub fn register(&mut self, function: &'a Function)
        ensures
            final(self).functions@ == old(self).functions@.push(function),
            final(self).stack == old(self).stack,
            final(self).call_stack == old(self).call_stack,
            final(self).local_stack == old(self).local_stack,
            final(self).ret == old(self).ret,
            final(self).budget == old(self).budget,
            function_index(final(self).functions@, function.name@) == Some(
                old(self).functions.len() as int,
            ),
    {
        self.functions.push(function);
        assert(self.functions@.drop_last() =~= old(self).functions@);
    }

    /// Runs a program: registers its functions, after those that are
    /// registered already, and calls `main`, as `sem_main` says.
    pub fn run<H: Host>(&mut self, host: &mut Recorder<H>, ast: &'a Vec<Function>) -> (r: Result<
        (),
        Error,
    >)
        ensures
            final(self).functions@.len() == old(self).functions@.len() + ast.len(),
            forall|i: int|
                0 <= i < old(self).functions@.len() ==> final(self).functions@[i]
                    == old(self).functions@[i],
            forall|i: int|
                0 <= i < ast.len() ==> *final(self).functions@[old(self).functions@.len() + i]
                    == ast[i],
            final(self).ret@ == old(self).ret@,
            final(self).budget <= old(self).budget,
            grows(old(host).log@, final(host).log@),
            forall|longer: Seq<Exchange>| #[trigger]
                extends(final(host).log@, longer) ==> sem_main(
                    registered(*old(self), *final(self), old(host).log@),
                    longer,
                ) == match r {
                    Ok(_) => Sem::Done(state(*final(self), final(host).log@)),
                    Err(e) => Sem::Fails(e@, final(host).log@.len()),
                },
            sem_main(
                registered(*old(self), *final(self), old(host).log@),
                final(host).log@,
            ) == match r {
                Ok(_) => Sem::Done(state(*final(self), final(host).log@)),
                Err(e) => Sem::Fails(e@, final(host).log@.len()),
            },
            r is Ok ==> final(self).call_stack@ == old(self).call_stack@
                && final(self).local_stack@ =~= old(self).local_stack@,
            has_parameters(final(self).functions@) ==> (r matches Err(e) && e@ == fault(
                ErrorKind::MainHasArguments,
            )) && final(host).log@ == old(host).log@ && final(self).stack == old(self).stack,
            all_well_formed(models(old(self).stack@)) && r is Ok ==> all_well_formed(
                models(final(self).stack@),
            ),
    {
        let mut i: usize = 0;
        while i < ast.len()
            invariant
                i <= ast.len(),
                self.functions@.len() == old(self).functions@.len() + i,
                forall|j: int|
                    0 <= j < old(self).functions@.len() ==> self.functions@[j]
                        == old(self).functions@[j],
                forall|j: int|
                    0 <= j < i ==> *self.functions@[old(self).functions@.len() + j] == ast[j],
                self.stack == old(self).stack,
                self.local_stack == old(self).local_stack,
                self.call_stack == old(self).call_stack,
                self.ret == old(self).ret,
                self.budget == old(self).budget,
                host.log@ == old(host).log@,
            decreases ast.len() - i,
        {
            self.register(&ast[i]);
            i += 1;
        }
        let main = String::from_str("main");
        let r = match find_function(&self.functions, &main) {
            None => Ok(()),
            Some(index) => {
                if self.functions[index].args.len() != 0 {
                    Err(Error::new(ErrorKind::MainHasArguments))
                } else {
                    let call = Call { name: String::from_str("main"), args: Vec::new() };
                    match self.call(host, &call) {
                        Ok(_) => Ok(()),
                        Err(e) => Err(e),
                    }
                }
            },
        };
        proof {
            extends_itself(host.log@);
            if all_well_formed(models(old(self).stack@)) {
                main_keeps(registered(*old(self), *self, old(host).log@), host.log@);
            }
        }
        r
    }
}

/// How a call ends, as `call_outcome` says.
pub fn finish_call(declared: bool, produced: Expect, top: Option<&Variable>) -> (r: Result<
    Expect,
    Error,
>)
    ensures
        match call_outcome(
            declared,
            produced,
            match top {
                Some(v) => Some(v@),
                None => None,
            },
        ) {
            Ok(x) => r == Ok::<Expect, Error>(x),
            Err(k) => r matches Err(e) && e@ == fault(k),
        },
{
    if declared {
        match top {
            None => Err(Error::new(ErrorKind::EmptyStack)),
            Some(Variable::Return) => Err(Error::new(ErrorKind::NoReturnValue)),
            Some(_) => Ok(Expect::Something),
        }
    } else {
        match produced {
            Expect::Something => Err(Error::new(ErrorKind::UnexpectedReturnValue)),
            Expect::Nothing => Ok(Expect::Nothing),
        }
    }
}

} // verus!
