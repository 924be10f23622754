//! An evaluation keeps the keys of objects distinct: where it starts on a
//! value stack of well-formed values, it ends on one.
//!
//! The proofs follow the meaning of evaluation, construct by construct.

use vstd::prelude::*;
use crate::ast::{
    AssignOp, BinOpExpression, Compare, Expression, For, Function, Id, If, UnOpExpression,
};
use crate::builtins::{Builtin, builtin_named, function_index};
use crate::flow::{Expect, FlowValue, Side};
use crate::host::Exchange;
use crate::keys::{
    all_well_formed, apply_is_well_formed, commit_is_well_formed, cut_and_push_is_well_formed,
    entry_added, item_emitted_is_well_formed, well_formed,
};
use crate::lookup::{item_emitted, key_rank};
use crate::ops::combined;
use crate::semantics::{
    Heights, Sem, State, argument_value, declared_value, entered, owned, segments_from, sem_apply,
    sem_arguments, sem_array, sem_assign, sem_binop, sem_block, sem_block_from, sem_body,
    sem_brackets, sem_call, sem_carry, sem_compare, sem_expression, sem_for, sem_if, sem_intrinsic,
    sem_invoke, sem_item, sem_leave, sem_main, sem_object, sem_operand, sem_return, sem_round,
    sem_rounds, sem_statement, sem_unop, sem_update, taken_argument, taken_bool, taken_operands,
};
use crate::value::{Value, cut};

verus! {

/// Whether the values on the value stack of a state are well formed.
pub open spec fn sound(s: State) -> bool {
    all_well_formed(s.stack)
}

/// Whether an evaluation that is done has ended in a sound state.
pub open spec fn ends_sound<'a>(r: Sem<(State<'a>, Expect, FlowValue)>) -> bool {
    r matches Sem::Done((s, _, _)) ==> sound(s)
}

/// A sound state stays sound when its value stack is cut back.
proof fn cut_is_sound(stack: Seq<Value>, height: int)
    requires
        all_well_formed(stack),
    ensures
        all_well_formed(cut(stack, height)),
{
    cut_and_push_is_well_formed(stack, height, Value::Return);
}

/// A sound state stays sound when a well-formed value is put on its value stack.
proof fn push_is_sound(stack: Seq<Value>, v: Value)
    requires
        all_well_formed(stack),
        well_formed(v),
    ensures
        all_well_formed(stack.push(v)),
{
    cut_and_push_is_well_formed(stack, stack.len() as int, v);
}

/// A sound state stays sound when values are taken from its value stack,
/// and the values taken are well formed.
proof fn taken_is_sound(stack: Seq<Value>, count: int)
    requires
        all_well_formed(stack),
        0 <= count <= stack.len(),
    ensures
        all_well_formed(stack.take(stack.len() - count)),
        forall|i: int| stack.len() - count <= i < stack.len() ==> well_formed(#[trigger] stack[i]),
{
    cut_and_push_is_well_formed(stack, stack.len() - count, Value::Return);
    assert(cut(stack, stack.len() - count) == stack.take(stack.len() - count));
}

/// The evaluation of an expression keeps the state sound.
pub proof fn expression_keeps<'a>(s: State<'a>, e: Expression, side: Side, record: Seq<Exchange>)
    requires
        sound(s),
    ensures
        ends_sound(sem_expression(s, e, side, record)),
    decreases s.budget, 0nat, 0nat,
{
    if s.budget > 0 {
        let s = State { budget: (s.budget - 1) as nat, ..s };
        match e {
            Expression::Number(n) => push_is_sound(s.stack, Value::Number(n)),
            Expression::Text(t) => push_is_sound(s.stack, Value::Text(t@)),
            Expression::Bool(b) => push_is_sound(s.stack, Value::Bool(b)),
            Expression::Object(entries) => object_keeps(s, entries@, 0, Seq::empty(), record),
            Expression::Array(items) => array_keeps(s, items@, 0, Seq::empty(), record),
            Expression::Item(item) => item_keeps(s, item.name@, item.ids@, side, record),
            Expression::UnOp(u) => unop_keeps(s, *u, side, record),
            Expression::BinOp(b) => binop_keeps(s, *b, side, record),
            Expression::Compare(c) => compare_keeps(s, *c, record),
            Expression::Assign(a) => assign_keeps(s, a.op, a.left, a.right, record),
            Expression::Call(c) => call_keeps(s, c.name@, c.args@, record),
            Expression::If(i) => if_keeps(s, *i, record),
            Expression::For(f) => for_keeps(s, *f, record),
            Expression::Block(b) => block_keeps(s, b.expressions@, record),
            Expression::Return(v) => return_keeps(s, *v, record),
            Expression::Break(_) => {},
            Expression::Continue(_) => {},
        }
    }
}

/// The evaluation of an operand keeps the state sound.
pub proof fn operand_keeps<'a>(s: State<'a>, e: Expression, side: Side, record: Seq<Exchange>)
    requires
        sound(s),
    ensures
        sem_operand(s, e, side, record) matches Sem::Done((s1, _)) ==> sound(s1),
    decreases s.budget, 1nat, 0nat,
{
    expression_keeps(s, e, side, record);
}

/// The evaluation of a statement keeps the state sound.
pub proof fn statement_keeps<'a>(s: State<'a>, e: Expression, record: Seq<Exchange>)
    requires
        sound(s),
    ensures
        sem_statement(s, e, record) matches Sem::Done((s1, _)) ==> sound(s1),
    decreases s.budget, 1nat, 0nat,
{
    expression_keeps(s, e, Side::Right, record);
}

/// The evaluation of a block keeps the state sound.
pub proof fn block_keeps<'a>(s: State<'a>, expressions: Seq<Expression>, record: Seq<Exchange>)
    requires
        sound(s),
    ensures
        ends_sound(sem_block(s, expressions, record)),
    decreases s.budget, 2nat, 0nat,
{
    block_from_keeps(s, expressions, 0, Expect::Nothing, s.locals.len() as int, record);
}

proof fn block_from_keeps<'a>(
    s: State<'a>,
    expressions: Seq<Expression>,
    i: nat,
    produced: Expect,
    height: int,
    record: Seq<Exchange>,
)
    requires
        sound(s),
    ensures
        ends_sound(sem_block_from(s, expressions, i, produced, height, record)),
    decreases s.budget, 1nat, expressions.len() - i,
{
    if i < expressions.len() {
        expression_keeps(s, expressions[i as int], Side::Right, record);
        match sem_expression(s, expressions[i as int], Side::Right, record) {
            Sem::Done((s1, x, FlowValue::Continue)) => {
                if s1.budget <= s.budget {
                    block_from_keeps(s1, expressions, i + 1, x, height, record);
                }
            },
            _ => {},
        }
    }
}

/// Taking a boolean from the stack keeps the state sound.
proof fn taken_bool_keeps<'a>(s: State<'a>)
    requires
        sound(s),
    ensures
        taken_bool(s) matches Sem::Done((s1, _)) ==> sound(s1),
{
    if s.stack.len() > 0 {
        taken_is_sound(s.stack, 1);
        assert(s.stack.drop_last() =~= s.stack.take(s.stack.len() - 1));
    }
}

/// The evaluation of a branch keeps the state sound.
pub proof fn if_keeps<'a>(s: State<'a>, i: If, record: Seq<Exchange>)
    requires
        sound(s),
    ensures
        ends_sound(sem_if(s, i, record)),
    decreases s.budget, 3nat, 0nat,
{
    operand_keeps(s, i.cond, Side::Right, record);
    match sem_operand(s, i.cond, Side::Right, record) {
        Sem::Done((s1, true)) => {
            taken_bool_keeps(s1);
            match taken_bool(s1) {
                Sem::Done((s2, chosen)) => {
                    if s2.budget <= s.budget {
                        if chosen {
                            block_keeps(s2, i.true_block.expressions@, record);
                        } else {
                            match i.else_block {
                                Some(b) => block_keeps(s2, b.expressions@, record),
                                None => {},
                            }
                        }
                    }
                },
                _ => {},
            }
        },
        _ => {},
    }
}

/// The evaluation of a loop keeps the state sound.
pub proof fn for_keeps<'a>(s: State<'a>, f: For, record: Seq<Exchange>)
    requires
        sound(s),
    ensures
        ends_sound(sem_for(s, f, record)),
    decreases s.budget, 5nat, 0nat,
{
    statement_keeps(s, f.init, record);
    match sem_statement(s, f.init, record) {
        Sem::Done((s1, true)) => {
            if s1.budget <= s.budget {
                rounds_keep(
                    s1,
                    f,
                    Heights {
                        stack_before: s.stack.len() as int,
                        locals_before: s.locals.len() as int,
                        stack_inside: s1.stack.len() as int,
                        locals_inside: s1.locals.len() as int,
                    },
                    record,
                );
            }
        },
        _ => {},
    }
}

proof fn rounds_keep<'a>(s: State<'a>, f: For, h: Heights, record: Seq<Exchange>)
    requires
        sound(s),
    ensures
        ends_sound(sem_rounds(s, f, h, record)),
    decreases s.budget, 4nat, 0nat,
{
    round_keeps(s, f, h, record);
    match sem_round(s, f, h, record) {
        Sem::Done((s1, None)) => {
            if s1.budget < s.budget {
                rounds_keep(s1, f, h, record);
            }
        },
        Sem::Done((s1, Some(_))) => {
            cut_is_sound(s1.stack, h.stack_before);
        },
        _ => {},
    }
}

proof fn round_keeps<'a>(s: State<'a>, f: For, h: Heights, record: Seq<Exchange>)
    requires
        sound(s),
    ensures
        sem_round(s, f, h, record) matches Sem::Done((s1, _)) ==> sound(s1),
    decreases s.budget, 3nat, 0nat,
{
    operand_keeps(s, f.cond, Side::Right, record);
    match sem_operand(s, f.cond, Side::Right, record) {
        Sem::Done((s1, true)) => {
            taken_bool_keeps(s1);
            match taken_bool(s1) {
                Sem::Done((s2, round)) => {
                    if s2.budget <= s.budget {
                        if round {
                            body_keeps(s2, f, h, record);
                        } else {
                            cut_is_sound(s2.stack, h.stack_inside);
                        }
                    }
                },
                _ => {},
            }
        },
        _ => {},
    }
}

proof fn body_keeps<'a>(s: State<'a>, f: For, h: Heights, record: Seq<Exchange>)
    requires
        sound(s),
    ensures
        sem_body(s, f, h, record) matches Sem::Done((s1, _)) ==> sound(s1),
    decreases s.budget, 2nat, 1nat,
{
    block_keeps(s, f.block.expressions@, record);
    match sem_block(s, f.block.expressions@, record) {
        Sem::Done((s1, _, flow)) => {
            if s1.budget <= s.budget {
                cut_is_sound(s1.stack, h.stack_inside);
                statement_keeps(s1, f.step, record);
                match sem_statement(s1, f.step, record) {
                    Sem::Done((s2, _)) => {
                        cut_is_sound(s2.stack, h.stack_inside);
                    },
                    _ => {},
                }
            }
        },
        _ => {},
    }
}

proof fn arguments_keep<'a>(
    s: State<'a>,
    args: Seq<Expression>,
    i: nat,
    slots: Seq<usize>,
    record: Seq<Exchange>,
)
    requires
        sound(s),
    ensures
        sem_arguments(s, args, i, slots, record) matches Sem::Done((s1, _)) ==> sound(s1),
    decreases s.budget, 2nat, args.len() - i,
{
    if i < args.len() {
        operand_keeps(s, args[i as int], Side::Right, record);
        match sem_operand(s, args[i as int], Side::Right, record) {
            Sem::Done((s1, true)) => {
                if s1.budget <= s.budget && 0 < s1.stack.len() <= usize::MAX {
                    arguments_keep(
                        s1,
                        args,
                        i + 1,
                        slots.push((s1.stack.len() - 1) as usize),
                        record,
                    );
                }
            },
            _ => {},
        }
    }
}

/// A stack of well-formed values stays one when the arguments of a call
/// are made the parameters' own.
proof fn owned_is_sound(stack: Seq<Value>, slots: Seq<usize>, i: nat)
    requires
        all_well_formed(stack),
    ensures
        all_well_formed(owned(stack, slots, i)),
    decreases slots.len() - i,
{
    if i < slots.len() {
        if slots[i as int] < stack.len() {
            let slot = slots[i as int];
            let v = argument_value(stack, slot);
            assert(well_formed(stack[slot as int]));
            match stack[slot as int] {
                Value::StackRef(j) => {
                    if j < stack.len() {
                        assert(well_formed(stack[j as int]));
                    }
                },
                _ => {},
            }
            let next = stack.update(slot as int, v);
            assert forall|k: int| 0 <= k < next.len() implies well_formed(#[trigger] next[k]) by {
                if k != slot {
                    assert(well_formed(stack[k]));
                }
            }
            owned_is_sound(next, slots, i + 1);
        } else {
            owned_is_sound(stack, slots, i + 1);
        }
    }
}

proof fn leave_keeps<'a>(s: State<'a>, st: usize, lc: usize, declared: bool, produced: Expect)
    requires
        sound(s),
    ensures
        ends_sound(sem_leave(s, st, lc, declared, produced)),
{
    cut_is_sound(s.stack, st as int);
}

proof fn invoke_keeps<'a>(
    s: State<'a>,
    name: Seq<char>,
    f: Function,
    args: Seq<Expression>,
    record: Seq<Exchange>,
)
    requires
        sound(s),
    ensures
        ends_sound(sem_invoke(s, name, f, args, record)),
    decreases s.budget, 3nat, 0nat,
{
    if args.len() == f.args.len() {
        let s0 = if f.returns {
            s.push(Value::Return)
        } else {
            s
        };
        push_is_sound(s.stack, Value::Return);
        arguments_keep(s0, args, 0, Seq::empty(), record);
        match sem_arguments(s0, args, 0, Seq::empty(), record) {
            Sem::Done((s1, Some(slots))) => {
                if !(s1.budget > s.budget || s0.stack.len() > usize::MAX || s0.locals.len()
                    > usize::MAX) {
                    let st = s0.stack.len() as usize;
                    let lc = s0.locals.len() as usize;
                    owned_is_sound(s1.stack, slots, 0);
                    let begun = entered(s1, name, f, slots, st, lc);
                    block_keeps(begun, f.block.expressions@, record);
                    match sem_block(begun, f.block.expressions@, record) {
                        Sem::Done((s2, produced, _)) => {
                            leave_keeps(s2, st, lc, f.returns, produced);
                        },
                        _ => {},
                    }
                }
            },
            _ => {},
        }
    }
}

proof fn intrinsic_keeps<'a>(
    s: State<'a>,
    name: Seq<char>,
    b: Builtin,
    args: Seq<Expression>,
    record: Seq<Exchange>,
)
    requires
        sound(s),
    ensures
        ends_sound(sem_intrinsic(s, name, b, args, record)),
    decreases s.budget, 3nat, 0nat,
{
    if args.len() == b.arity() {
        arguments_keep(s, args, 0, Seq::empty(), record);
        match sem_arguments(s, args, 0, Seq::empty(), record) {
            Sem::Done((s1, Some(_))) => {
                match taken_argument(s1, args.len()) {
                    Sem::Done((s2, arg)) => {
                        if args.len() > 0 {
                            taken_is_sound(s1.stack, 1);
                            assert(s1.stack.drop_last() =~= s1.stack.take(s1.stack.len() - 1));
                            assert(well_formed(s1.stack[s1.stack.len() - 1]));
                        }
                        apply_is_well_formed(
                            b,
                            arg,
                            s2.stack,
                            s2.locals,
                            s2.frames,
                            s2.budget,
                            s2.asked,
                            record,
                        );
                        cut_is_sound(s2.stack, s.stack.len() as int);
                        match sem_apply(
                            b,
                            arg,
                            s2.stack,
                            s2.locals,
                            s2.frames,
                            s2.budget,
                            s2.asked,
                            record,
                        ) {
                            Sem::Done((Some(v), _, _)) => {
                                push_is_sound(cut(s2.stack, s.stack.len() as int), v);
                            },
                            _ => {},
                        }
                    },
                    _ => {},
                }
            },
            _ => {},
        }
    }
}

/// The evaluation of a call keeps the state sound.
pub proof fn call_keeps<'a>(
    s: State<'a>,
    name: Seq<char>,
    args: Seq<Expression>,
    record: Seq<Exchange>,
)
    requires
        sound(s),
    ensures
        ends_sound(sem_call(s, name, args, record)),
    decreases s.budget, 4nat, 0nat,
{
    match function_index(s.functions, name) {
        Some(index) => invoke_keeps(s, name, *s.functions[index], args, record),
        None => match builtin_named(name) {
            Some(b) => intrinsic_keeps(s, name, b, args, record),
            None => {},
        },
    }
}

/// The run of a program keeps the state sound.
pub proof fn main_keeps<'a>(s: State<'a>, record: Seq<Exchange>)
    requires
        sound(s),
    ensures
        sem_main(s, record) matches Sem::Done(s1) ==> sound(s1),
{
    call_keeps(s, "main"@, Seq::empty(), record);
}

proof fn brackets_keep<'a>(
    s: State<'a>,
    ids: Seq<Id>,
    i: nat,
    positions: Seq<usize>,
    record: Seq<Exchange>,
)
    requires
        sound(s),
    ensures
        sem_brackets(s, ids, i, positions, record) matches Sem::Done((s1, _)) ==> sound(s1),
    decreases s.budget, 2nat, ids.len() - i,
{
    if i < ids.len() {
        match ids[i as int] {
            Id::Expression(e) => {
                operand_keeps(s, e, Side::Right, record);
                match sem_operand(s, e, Side::Right, record) {
                    Sem::Done((s1, true)) => {
                        if s1.budget <= s.budget && 0 < s1.stack.len() <= usize::MAX {
                            brackets_keep(
                                s1,
                                ids,
                                i + 1,
                                positions.push((s1.stack.len() - 1) as usize),
                                record,
                            );
                        }
                    },
                    _ => {},
                }
            },
            _ => brackets_keep(s, ids, i + 1, positions.push(0), record),
        }
    }
}

/// The evaluation of an item keeps the state sound.
pub proof fn item_keeps<'a>(
    s: State<'a>,
    name: Seq<char>,
    ids: Seq<Id>,
    side: Side,
    record: Seq<Exchange>,
)
    requires
        sound(s),
    ensures
        ends_sound(sem_item(s, name, ids, side, record)),
    decreases s.budget, 3nat, 0nat,
{
    brackets_keep(s, ids, 0, Seq::empty(), record);
    match sem_brackets(s, ids, 0, Seq::empty(), record) {
        Sem::Done((s1, positions)) => match segments_from(
            s1.stack,
            ids,
            positions,
            0,
            Seq::empty(),
        ) {
            Ok(segments) => {
                if item_emitted(
                    s1.stack,
                    s1.locals,
                    s1.frames,
                    name,
                    segments,
                    side,
                    s.stack.len() as int,
                    s1.stack.len(),
                ) is Ok {
                    item_emitted_is_well_formed(
                        s1.stack,
                        s1.locals,
                        s1.frames,
                        name,
                        segments,
                        side,
                        s.stack.len() as int,
                        s1.stack.len(),
                    );
                }
            },
            Err(_) => {},
        },
        _ => {},
    }
}

/// The end of an updating assignment keeps the state sound.
proof fn update_keeps<'a>(s: State<'a>, op: AssignOp, record: Seq<Exchange>)
    requires
        sound(s),
    ensures
        ends_sound(sem_update(s, op, record)),
{
    if s.stack.len() >= 2 {
        taken_is_sound(s.stack, 2);
        assert(well_formed(s.stack[s.stack.len() - 2]));
        commit_is_well_formed(
            s.stack.take(s.stack.len() - 2),
            op,
            s.stack[s.stack.len() - 1],
            s.stack[s.stack.len() - 2],
            s.asked,
            record,
        );
    }
}

/// The evaluation of an assignment keeps the state sound.
pub proof fn assign_keeps<'a>(
    s: State<'a>,
    op: AssignOp,
    left: Expression,
    right: Expression,
    record: Seq<Exchange>,
)
    requires
        sound(s),
    ensures
        ends_sound(sem_assign(s, op, left, right, record)),
    decreases s.budget, 2nat, 0nat,
{
    operand_keeps(s, right, Side::Right, record);
    match sem_operand(s, right, Side::Right, record) {
        Sem::Done((s1, true)) => {
            if op == AssignOp::Declare {
                if s1.stack.len() > 0 {
                    taken_is_sound(s1.stack, 1);
                    assert(s1.stack.drop_last() =~= s1.stack.take(s1.stack.len() - 1));
                    let rest = s1.stack.drop_last();
                    assert(well_formed(s1.stack[s1.stack.len() - 1]));
                    match declared_value(rest, s1.stack.last()) {
                        Ok(v) => {
                            match s1.stack.last() {
                                Value::StackRef(i) => {
                                    assert(well_formed(rest[i as int]));
                                },
                                _ => {},
                            }
                            push_is_sound(rest, v);
                        },
                        Err(_) => {},
                    }
                }
            } else if s1.budget <= s.budget {
                let side = Side::LeftInsert(op == AssignOp::Store);
                operand_keeps(s1, left, side, record);
                match sem_operand(s1, left, side, record) {
                    Sem::Done((s2, true)) => update_keeps(s2, op, record),
                    _ => {},
                }
            }
        },
        _ => {},
    }
}

/// The evaluation of a return keeps the state sound.
pub proof fn return_keeps<'a>(s: State<'a>, v: Expression, record: Seq<Exchange>)
    requires
        sound(s),
    ensures
        ends_sound(sem_return(s, v, record)),
    decreases s.budget, 2nat, 0nat,
{
    operand_keeps(s, v, Side::Right, record);
    match sem_operand(s, v, Side::Right, record) {
        Sem::Done((s1, true)) => {
            if item_emitted(
                s1.stack,
                s1.locals,
                s1.frames,
                s.ret,
                Seq::empty(),
                Side::LeftInsert(true),
                s1.stack.len() as int,
                s1.stack.len(),
            ) is Ok {
                item_emitted_is_well_formed(
                    s1.stack,
                    s1.locals,
                    s1.frames,
                    s.ret,
                    Seq::empty(),
                    Side::LeftInsert(true),
                    s1.stack.len() as int,
                    s1.stack.len(),
                );
                let stack = item_emitted(
                    s1.stack,
                    s1.locals,
                    s1.frames,
                    s.ret,
                    Seq::empty(),
                    Side::LeftInsert(true),
                    s1.stack.len() as int,
                    s1.stack.len(),
                )->Ok_0;
                update_keeps(s1.with_stack(stack), AssignOp::Store, record);
            }
        },
        _ => {},
    }
}

/// Taking two operands from the stack keeps the state sound.
proof fn taken_operands_keep<'a>(s: State<'a>)
    requires
        sound(s),
    ensures
        taken_operands(s) matches Sem::Done((s1, _, _)) ==> sound(s1),
{
    if s.stack.len() >= 2 {
        taken_is_sound(s.stack, 2);
    }
}

/// The evaluation of a comparison keeps the state sound.
pub proof fn compare_keeps<'a>(s: State<'a>, c: Compare, record: Seq<Exchange>)
    requires
        sound(s),
    ensures
        ends_sound(sem_compare(s, c, record)),
    decreases s.budget, 2nat, 0nat,
{
    operand_keeps(s, c.left, Side::Right, record);
    match sem_operand(s, c.left, Side::Right, record) {
        Sem::Done((s1, true)) => {
            if s1.budget <= s.budget {
                operand_keeps(s1, c.right, Side::Right, record);
                match sem_operand(s1, c.right, Side::Right, record) {
                    Sem::Done((s2, true)) => {
                        taken_operands_keep(s2);
                        match taken_operands(s2) {
                            Sem::Done((s3, _, _)) => {
                                push_is_sound(s3.stack, Value::Bool(true));
                                push_is_sound(s3.stack, Value::Bool(false));
                            },
                            _ => {},
                        }
                    },
                    _ => {},
                }
            }
        },
        _ => {},
    }
}

/// The evaluation of a binary operator keeps the state sound.
pub proof fn binop_keeps<'a>(s: State<'a>, b: BinOpExpression, side: Side, record: Seq<Exchange>)
    requires
        sound(s),
    ensures
        ends_sound(sem_binop(s, b, side, record)),
    decreases s.budget, 2nat, 0nat,
{
    operand_keeps(s, b.left, side, record);
    match sem_operand(s, b.left, side, record) {
        Sem::Done((s1, true)) => {
            if s1.budget <= s.budget {
                operand_keeps(s1, b.right, side, record);
                match sem_operand(s1, b.right, side, record) {
                    Sem::Done((s2, true)) => {
                        taken_operands_keep(s2);
                        match taken_operands(s2) {
                            Sem::Done((s3, x, y)) => match combined(b.op, x, y) {
                                Ok(outcome) => match sem_carry(outcome, s3.asked, record) {
                                    Sem::Done((v, _)) => {
                                        push_is_sound(s3.stack, v);
                                    },
                                    _ => {},
                                },
                                Err(_) => {},
                            },
                            _ => {},
                        }
                    },
                    _ => {},
                }
            }
        },
        _ => {},
    }
}

/// The evaluation of a unary operator keeps the state sound.
pub proof fn unop_keeps<'a>(s: State<'a>, u: UnOpExpression, side: Side, record: Seq<Exchange>)
    requires
        sound(s),
    ensures
        ends_sound(sem_unop(s, u, side, record)),
    decreases s.budget, 2nat, 0nat,
{
    operand_keeps(s, u.expr, side, record);
    match sem_operand(s, u.expr, side, record) {
        Sem::Done((s1, true)) => {
            if s1.stack.len() > 0 {
                taken_is_sound(s1.stack, 1);
                assert(s1.stack.drop_last() =~= s1.stack.take(s1.stack.len() - 1));
                push_is_sound(s1.stack.drop_last(), Value::Bool(true));
                push_is_sound(s1.stack.drop_last(), Value::Bool(false));
            }
        },
        _ => {},
    }
}

proof fn array_keeps<'a>(
    s: State<'a>,
    items: Seq<Expression>,
    i: nat,
    built: Seq<Value>,
    record: Seq<Exchange>,
)
    requires
        sound(s),
        all_well_formed(built),
    ensures
        ends_sound(sem_array(s, items, i, built, record)),
    decreases s.budget, 2nat, items.len() - i,
{
    if i >= items.len() {
        assert(well_formed(Value::Array(built))) by {
            assert forall|j: int| 0 <= j < built.len() implies well_formed(
                #[trigger] built[j],
            ) by {}
        }
        push_is_sound(s.stack, Value::Array(built));
    } else {
        operand_keeps(s, items[i as int], Side::Right, record);
        match sem_operand(s, items[i as int], Side::Right, record) {
            Sem::Done((s1, true)) => {
                if s1.stack.len() > 0 && s1.budget <= s.budget {
                    taken_is_sound(s1.stack, 1);
                    assert(s1.stack.drop_last() =~= s1.stack.take(s1.stack.len() - 1));
                    assert(well_formed(s1.stack[s1.stack.len() - 1]));
                    push_is_sound(built, s1.stack.last());
                    array_keeps(
                        s1.with_stack(s1.stack.drop_last()),
                        items,
                        i + 1,
                        built.push(s1.stack.last()),
                        record,
                    );
                }
            },
            _ => {},
        }
    }
}

proof fn object_keeps<'a>(
    s: State<'a>,
    entries: Seq<(String, Expression)>,
    i: nat,
    built: Seq<(Seq<char>, Value)>,
    record: Seq<Exchange>,
)
    requires
        sound(s),
        well_formed(Value::Object(built)),
    ensures
        ends_sound(sem_object(s, entries, i, built, record)),
    decreases s.budget, 2nat, entries.len() - i,
{
    if i >= entries.len() {
        push_is_sound(s.stack, Value::Object(built));
    } else {
        operand_keeps(s, entries[i as int].1, Side::Right, record);
        match sem_operand(s, entries[i as int].1, Side::Right, record) {
            Sem::Done((s1, true)) => {
                if s1.stack.len() > 0 && key_rank(built, entries[i as int].0@) is None
                    && s1.budget <= s.budget {
                    taken_is_sound(s1.stack, 1);
                    assert(s1.stack.drop_last() =~= s1.stack.take(s1.stack.len() - 1));
                    assert(well_formed(s1.stack[s1.stack.len() - 1]));
                    entry_added(built, entries[i as int].0@, s1.stack.last());
                    object_keeps(
                        s1.with_stack(s1.stack.drop_last()),
                        entries,
                        i + 1,
                        built.push((entries[i as int].0@, s1.stack.last())),
                        record,
                    );
                }
            },
            _ => {},
        }
    }
}

} // verus!
