//! What the shape of an expression tells about its evaluation, before it is
//! evaluated.

use vstd::prelude::*;
use crate::ast::{AssignOp, Block, Expression, Function};
use crate::builtins::returns_of;

verus! {

/// Whether the expression is a declaring assignment, which binds a local.
pub open spec fn declares(e: Expression) -> bool {
    e matches Expression::Assign(a) && a.op == AssignOp::Declare
}

/// The number of local bindings that the expression adds.
pub open spec fn bindings(e: Expression) -> int {
    if declares(e) {
        1
    } else {
        0
    }
}

/// Whether the expression, by its shape, leaves no value when it is done.
pub open spec fn quiet(functions: Seq<&Function>, e: Expression) -> bool
    decreases e,
{
    match e {
        Expression::Assign(_) => true,
        Expression::For(_) => true,
        Expression::Return(_) => true,
        Expression::Break(_) => true,
        Expression::Continue(_) => true,
        Expression::Call(c) => returns_of(functions, c.name@) == Some(false),
        Expression::Block(b) => quiet_block(functions, b),
        Expression::If(i) => quiet_block(functions, i.true_block) && (i.else_block matches Some(b)
            ==> quiet_block(functions, b)),
        _ => false,
    }
}

/// Whether the block, by its shape, leaves no value when it is done: it is
/// empty, or its last expression leaves none.
pub open spec fn quiet_block(functions: Seq<&Function>, b: Block) -> bool
    decreases b,
{
    b.expressions.len() == 0 || quiet(functions, b.expressions[b.expressions.len() - 1])
}

/// Whether the expression, by its shape, leaves nothing on the value stack
/// but the value it produces.
///
/// A declaring assignment is not tidy: the value of the local stays on the
/// stack. Nor is a block in which an expression other than the last leaves a
/// value: that value stays too. A loop and a call clean up after themselves,
/// whatever they hold.
pub open spec fn tidy(functions: Seq<&Function>, e: Expression) -> bool
    decreases e,
{
    match e {
        Expression::Object(entries) => forall|i: int|
            0 <= i < entries.len() ==> tidy(functions, #[trigger] entries[i].1),
        Expression::Array(items) => forall|i: int|
            0 <= i < items.len() ==> tidy(functions, #[trigger] items[i]),
        Expression::UnOp(u) => tidy(functions, u.expr),
        Expression::BinOp(b) => tidy(functions, b.left) && tidy(functions, b.right),
        Expression::Compare(c) => tidy(functions, c.left) && tidy(functions, c.right),
        Expression::Assign(a) => a.op != AssignOp::Declare && tidy(functions, a.left) && tidy(
            functions,
            a.right,
        ),
        Expression::Return(r) => tidy(functions, *r),
        Expression::Block(b) => tidy_block(functions, b),
        Expression::If(i) => tidy(functions, i.cond) && tidy_block(functions, i.true_block) && (
        i.else_block matches Some(b) ==> tidy_block(functions, b)),
        _ => true,
    }
}

/// Whether the block, by its shape, leaves nothing on the value stack but
/// the value it produces: each of its expressions is tidy, and all but the
/// last are quiet.
pub open spec fn tidy_block(functions: Seq<&Function>, b: Block) -> bool
    decreases b,
{
    forall|i: int|
        0 <= i < b.expressions.len() ==> tidy(functions, #[trigger] b.expressions[i]) && (i
            < b.expressions.len() - 1 ==> quiet(functions, b.expressions[i]))
}

} // verus!
