//! Deep copies: copies in which every reference into the stack is replaced
//! by a copy of the value it refers to.

use vstd::prelude::*;
use crate::error::{Error, ErrorKind, fault};
use crate::place::slot_put;
use crate::value::{PlaceValue, Value, Variable, array_model, entry_models, models, object_model};

verus! {

/// The deep copy of `v`: `v` with a deep copy of the slot referred to in
/// place of every reference into the stack.
///
/// `depth` bounds how many references may be followed one after the other;
/// a chain of references that is longer, as every circular one is, fails.
/// `ranked_has_deep_copy` says which depth is enough. A reference that
/// points outside of the stack and a handle fail too. Of several failures
/// in one container the first counts.
pub open spec fn deep(v: Value, stack: Seq<Value>, depth: nat) -> Result<Value, ErrorKind>
    decreases depth, v,
{
    match v {
        Value::Array(a) => match deep_items(a, stack, depth) {
            Ok(items) => Ok(Value::Array(items)),
            Err(k) => Err(k),
        },
        Value::Object(o) => match deep_entries(o, stack, depth) {
            Ok(entries) => Ok(Value::Object(entries)),
            Err(k) => Err(k),
        },
        Value::StackRef(i) => if i >= stack.len() {
            Err(ErrorKind::DanglingReference)
        } else if depth == 0 {
            Err(ErrorKind::TooDeep)
        } else {
            deep(stack[i as int], stack, (depth - 1) as nat)
        },
        Value::RawRef(_) => Err(ErrorKind::RawReference),
        _ => Ok(v),
    }
}

/// The deep copies of the elements of an array.
pub open spec fn deep_items(items: Seq<Value>, stack: Seq<Value>, depth: nat) -> Result<
    Seq<Value>,
    ErrorKind,
>
    decreases depth, items,
{
    if items.len() == 0 {
        Ok(Seq::empty())
    } else {
        match deep_items(items.drop_last(), stack, depth) {
            Err(k) => Err(k),
            Ok(front) => match deep(items.last(), stack, depth) {
                Err(k) => Err(k),
                Ok(x) => Ok(front.push(x)),
            },
        }
    }
}

/// The entries of an object with the deep copies of their values.
pub open spec fn deep_entries(
    entries: Seq<(Seq<char>, Value)>,
    stack: Seq<Value>,
    depth: nat,
) -> Result<Seq<(Seq<char>, Value)>, ErrorKind>
    decreases depth, entries,
{
    if entries.len() == 0 {
        Ok(Seq::empty())
    } else {
        match deep_entries(entries.drop_last(), stack, depth) {
            Err(k) => Err(k),
            Ok(front) => match deep(entries.last().1, stack, depth) {
                Err(k) => Err(k),
                Ok(x) => Ok(front.push((entries.last().0, x))),
            },
        }
    }
}

/// A failure among the first `n` elements is the failure of them all.
pub proof fn deep_items_fail(items: Seq<Value>, stack: Seq<Value>, depth: nat, n: int)
    requires
        0 <= n <= items.len(),
        deep_items(items.take(n), stack, depth) is Err,
    ensures
        deep_items(items, stack, depth) == deep_items(items.take(n), stack, depth),
    decreases items.len() - n,
{
    if n < items.len() {
        assert(items.take(n + 1).drop_last() =~= items.take(n));
        deep_items_fail(items, stack, depth, n + 1);
    } else {
        assert(items.take(n) =~= items);
    }
}

/// A failure among the first `n` entries is the failure of them all.
pub proof fn deep_entries_fail(
    entries: Seq<(Seq<char>, Value)>,
    stack: Seq<Value>,
    depth: nat,
    n: int,
)
    requires
        0 <= n <= entries.len(),
        deep_entries(entries.take(n), stack, depth) is Err,
    ensures
        deep_entries(entries, stack, depth) == deep_entries(entries.take(n), stack, depth),
    decreases entries.len() - n,
{
    if n < entries.len() {
        assert(entries.take(n + 1).drop_last() =~= entries.take(n));
        deep_entries_fail(entries, stack, depth, n + 1);
    } else {
        assert(entries.take(n) =~= entries);
    }
}

/// Whether a value holds no reference into the stack and no handle, at any depth.
pub open spec fn closed(v: Value) -> bool
    decreases v,
{
    match v {
        Value::Array(a) => forall|i: int| 0 <= i < a.len() ==> closed(#[trigger] a[i]),
        Value::Object(o) => forall|i: int| 0 <= i < o.len() ==> closed(#[trigger] o[i].1),
        Value::StackRef(_) => false,
        Value::RawRef(_) => false,
        _ => true,
    }
}

/// A deep copy holds no reference and no handle.
pub proof fn deep_is_closed(v: Value, stack: Seq<Value>, depth: nat)
    requires
        deep(v, stack, depth) is Ok,
    ensures
        closed(deep(v, stack, depth)->Ok_0),
    decreases depth, v,
{
    match v {
        Value::Array(a) => {
            deep_items_are_closed(a, stack, depth);
        },
        Value::Object(o) => {
            deep_entries_are_closed(o, stack, depth);
        },
        Value::StackRef(i) => {
            deep_is_closed(stack[i as int], stack, (depth - 1) as nat);
        },
        _ => {},
    }
}

proof fn deep_items_are_closed(items: Seq<Value>, stack: Seq<Value>, depth: nat)
    requires
        deep_items(items, stack, depth) is Ok,
    ensures
        deep_items(items, stack, depth)->Ok_0.len() == items.len(),
        forall|i: int|
            0 <= i < items.len() ==> closed(#[trigger] deep_items(items, stack, depth)->Ok_0[i]),
    decreases depth, items,
{
    if items.len() > 0 {
        deep_items_are_closed(items.drop_last(), stack, depth);
        deep_is_closed(items.last(), stack, depth);
    }
}

proof fn deep_entries_are_closed(entries: Seq<(Seq<char>, Value)>, stack: Seq<Value>, depth: nat)
    requires
        deep_entries(entries, stack, depth) is Ok,
    ensures
        deep_entries(entries, stack, depth)->Ok_0.len() == entries.len(),
        forall|i: int|
            0 <= i < entries.len() ==> closed(
                #[trigger] deep_entries(entries, stack, depth)->Ok_0[i].1,
            ),
    decreases depth, entries,
{
    if entries.len() > 0 {
        deep_entries_are_closed(entries.drop_last(), stack, depth);
        deep_is_closed(entries.last().1, stack, depth);
    }
}

/// A value without references and handles is its own deep copy, whatever
/// the stack holds.
pub proof fn closed_is_own_deep(v: Value, stack: Seq<Value>, depth: nat)
    requires
        closed(v),
    ensures
        deep(v, stack, depth) == Ok::<Value, ErrorKind>(v),
    decreases v,
{
    match v {
        Value::Array(a) => {
            closed_items_are_own_deep(a, stack, depth);
        },
        Value::Object(o) => {
            closed_entries_are_own_deep(o, stack, depth);
        },
        _ => {},
    }
}

proof fn closed_items_are_own_deep(items: Seq<Value>, stack: Seq<Value>, depth: nat)
    requires
        forall|i: int| 0 <= i < items.len() ==> closed(#[trigger] items[i]),
    ensures
        deep_items(items, stack, depth) == Ok::<Seq<Value>, ErrorKind>(items),
    decreases items,
{
    if items.len() > 0 {
        closed_items_are_own_deep(items.drop_last(), stack, depth);
        assert(closed(items[items.len() - 1]));
        closed_is_own_deep(items.last(), stack, depth);
        assert(items.drop_last().push(items.last()) =~= items);
    } else {
        assert(items =~= Seq::empty());
    }
}

proof fn closed_entries_are_own_deep(
    entries: Seq<(Seq<char>, Value)>,
    stack: Seq<Value>,
    depth: nat,
)
    requires
        forall|i: int| 0 <= i < entries.len() ==> closed(#[trigger] entries[i].1),
    ensures
        deep_entries(entries, stack, depth) == Ok::<Seq<(Seq<char>, Value)>, ErrorKind>(entries),
    decreases entries,
{
    if entries.len() > 0 {
        closed_entries_are_own_deep(entries.drop_last(), stack, depth);
        assert(closed(entries[entries.len() - 1].1));
        closed_is_own_deep(entries.last().1, stack, depth);
        assert(entries.drop_last().push(entries.last()) =~= entries);
    } else {
        assert(entries =~= Seq::empty());
    }
}

/// A deep copy shares nothing with the stack it was taken from: whatever
/// the stack holds later, and however deep one looks, the copy stands for
/// itself. So no later change to the value that was copied, nor to any slot,
/// changes what the copy means.
pub proof fn deep_copy_is_independent(
    v: Value,
    stack: Seq<Value>,
    depth: nat,
    later: Seq<Value>,
    later_depth: nat,
)
    requires
        deep(v, stack, depth) is Ok,
    ensures
        deep(deep(v, stack, depth)->Ok_0, later, later_depth) == deep(v, stack, depth),
{
    deep_is_closed(v, stack, depth);
    closed_is_own_deep(deep(v, stack, depth)->Ok_0, later, later_depth);
}

/// A deep copy stays what it is when more references may be followed.
pub proof fn deep_is_steady(v: Value, stack: Seq<Value>, depth: nat, more: nat)
    requires
        deep(v, stack, depth) is Ok,
        depth <= more,
    ensures
        deep(v, stack, more) == deep(v, stack, depth),
    decreases depth, v,
{
    match v {
        Value::Array(a) => deep_items_are_steady(a, stack, depth, more),
        Value::Object(o) => deep_entries_are_steady(o, stack, depth, more),
        Value::StackRef(i) => {
            deep_is_steady(stack[i as int], stack, (depth - 1) as nat, (more - 1) as nat);
        },
        _ => {},
    }
}

proof fn deep_items_are_steady(items: Seq<Value>, stack: Seq<Value>, depth: nat, more: nat)
    requires
        deep_items(items, stack, depth) is Ok,
        depth <= more,
    ensures
        deep_items(items, stack, more) == deep_items(items, stack, depth),
    decreases depth, items,
{
    if items.len() > 0 {
        deep_items_are_steady(items.drop_last(), stack, depth, more);
        deep_is_steady(items.last(), stack, depth, more);
    }
}

proof fn deep_entries_are_steady(
    entries: Seq<(Seq<char>, Value)>,
    stack: Seq<Value>,
    depth: nat,
    more: nat,
)
    requires
        deep_entries(entries, stack, depth) is Ok,
        depth <= more,
    ensures
        deep_entries(entries, stack, more) == deep_entries(entries, stack, depth),
    decreases depth, entries,
{
    if entries.len() > 0 {
        deep_entries_are_steady(entries.drop_last(), stack, depth, more);
        deep_is_steady(entries.last().1, stack, depth, more);
    }
}

/// Whether the value holds no handle, and no reference but to a slot whose
/// rank is below `n`, at any depth.
pub open spec fn leads_below(v: Value, ranks: Seq<nat>, n: nat) -> bool
    decreases v,
{
    match v {
        Value::Array(a) => forall|i: int|
            0 <= i < a.len() ==> leads_below(#[trigger] a[i], ranks, n),
        Value::Object(o) => forall|i: int|
            0 <= i < o.len() ==> leads_below((#[trigger] o[i]).1, ranks, n),
        Value::StackRef(i) => i < ranks.len() && ranks[i as int] < n,
        Value::RawRef(_) => false,
        _ => true,
    }
}

/// Whether `ranks` gives every slot of the stack a rank such that the slot
/// holds no handle, and no reference but to a slot of a lower rank. A stack
/// has such ranks where it holds no handle and no reference that points
/// outside of it, and no references in it lead in a circle; where every
/// reference points to a lower slot, the slots' own numbers are such ranks.
pub open spec fn ranked(stack: Seq<Value>, ranks: Seq<nat>) -> bool {
    &&& ranks.len() == stack.len()
    &&& forall|j: int|
        0 <= j < stack.len() ==> leads_below(#[trigger] stack[j], ranks, ranks[j])
}

/// The number of slots whose rank is below `n`.
pub open spec fn lower(ranks: Seq<nat>, n: nat) -> nat
    decreases ranks.len(),
{
    if ranks.len() == 0 {
        0
    } else if ranks.last() < n {
        lower(ranks.drop_last(), n) + 1
    } else {
        lower(ranks.drop_last(), n)
    }
}

/// No more slots have a rank below `n` than there are slots, and no more
/// than have a rank below a greater number.
pub proof fn lower_is_bounded(ranks: Seq<nat>, n: nat, more: nat)
    requires
        n <= more,
    ensures
        lower(ranks, n) <= lower(ranks, more) <= ranks.len(),
    decreases ranks.len(),
{
    if ranks.len() > 0 {
        lower_is_bounded(ranks.drop_last(), n, more);
    }
}

/// A slot whose rank is below `more` and not below `n` is one more slot
/// below `more` than there are below `n`.
pub proof fn lower_grows(ranks: Seq<nat>, i: int, n: nat, more: nat)
    requires
        0 <= i < ranks.len(),
        n <= ranks[i] < more,
    ensures
        lower(ranks, n) < lower(ranks, more),
    decreases ranks.len(),
{
    let front = ranks.drop_last();
    if i == ranks.len() - 1 {
        lower_is_bounded(front, n, more);
    } else {
        assert(front[i] == ranks[i]);
        lower_grows(front, i, n, more);
    }
}

/// On a stack with ranks, every value whose references lead to slots of
/// the stack has a deep copy with the height of the stack for the depth: a
/// chain of references passes each slot once at most. A depth as great as
/// the number of slots of a rank below `n` is enough.
pub proof fn ranked_has_deep_copy(v: Value, stack: Seq<Value>, ranks: Seq<nat>, n: nat)
    requires
        ranked(stack, ranks),
        leads_below(v, ranks, n),
    ensures
        deep(v, stack, lower(ranks, n)) is Ok,
        deep(v, stack, stack.len()) == deep(v, stack, lower(ranks, n)),
    decreases n, v,
{
    match v {
        Value::Array(a) => ranked_items_have_deep_copies(a, stack, ranks, n),
        Value::Object(o) => ranked_entries_have_deep_copies(o, stack, ranks, n),
        Value::StackRef(i) => {
            let rank = ranks[i as int];
            ranked_has_deep_copy(stack[i as int], stack, ranks, rank);
            lower_grows(ranks, i as int, rank, n);
            deep_is_steady(
                stack[i as int],
                stack,
                lower(ranks, rank),
                (lower(ranks, n) - 1) as nat,
            );
        },
        _ => {},
    }
    lower_is_bounded(ranks, n, n);
    deep_is_steady(v, stack, lower(ranks, n), stack.len());
}

proof fn ranked_items_have_deep_copies(
    items: Seq<Value>,
    stack: Seq<Value>,
    ranks: Seq<nat>,
    n: nat,
)
    requires
        ranked(stack, ranks),
        forall|i: int| 0 <= i < items.len() ==> leads_below(#[trigger] items[i], ranks, n),
    ensures
        deep_items(items, stack, lower(ranks, n)) is Ok,
    decreases n, items,
{
    if items.len() > 0 {
        let front = items.drop_last();
        assert forall|i: int| 0 <= i < front.len() implies leads_below(
            #[trigger] front[i],
            ranks,
            n,
        ) by {
            assert(front[i] == items[i]);
        }
        ranked_items_have_deep_copies(front, stack, ranks, n);
        assert(leads_below(items[items.len() - 1], ranks, n));
        ranked_has_deep_copy(items.last(), stack, ranks, n);
    }
}

proof fn ranked_entries_have_deep_copies(
    entries: Seq<(Seq<char>, Value)>,
    stack: Seq<Value>,
    ranks: Seq<nat>,
    n: nat,
)
    requires
        ranked(stack, ranks),
        forall|i: int|
            0 <= i < entries.len() ==> leads_below((#[trigger] entries[i]).1, ranks, n),
    ensures
        deep_entries(entries, stack, lower(ranks, n)) is Ok,
    decreases n, entries,
{
    if entries.len() > 0 {
        let front = entries.drop_last();
        assert forall|i: int| 0 <= i < front.len() implies leads_below(
            (#[trigger] front[i]).1,
            ranks,
            n,
        ) by {
            assert(front[i] == entries[i]);
        }
        ranked_entries_have_deep_copies(front, stack, ranks, n);
        assert(leads_below(entries[entries.len() - 1].1, ranks, n));
        ranked_has_deep_copy(entries.last().1, stack, ranks, n);
    }
}

/// A value and its deep copy, each in a slot of its own, are apart: a write
/// into a slot of the stack, at whatever path, changes the value in that
/// slot at most. So a write into the copy leaves the value that was copied
/// as it is, and a write into that value leaves the copy as it is; and
/// after either, the copy still stands for itself.
pub proof fn copy_is_apart(
    stack: Seq<Value>,
    copied: int,
    copy: int,
    depth: nat,
    target: PlaceValue,
    new: Value,
    later_depth: nat,
)
    requires
        0 <= copied < stack.len(),
        0 <= copy < stack.len(),
        copied != copy,
        deep(stack[copied], stack, depth) == Ok::<Value, ErrorKind>(stack[copy]),
        target.slot == copied || target.slot == copy,
    ensures
        target.slot == copy ==> slot_put(stack, target, new)[copied] == stack[copied],
        target.slot == copied ==> slot_put(stack, target, new)[copy] == stack[copy],
        deep(stack[copy], slot_put(stack, target, new), later_depth) == Ok::<Value, ErrorKind>(
            stack[copy],
        ),
{
    deep_copy_is_independent(
        stack[copied],
        stack,
        depth,
        slot_put(stack, target, new),
        later_depth,
    );
}

/// The deep copy of `v`, following at most `depth` references one after the other.
pub fn deep_clone(v: &Variable, stack: &Vec<Variable>, depth: usize) -> (r: Result<Variable, Error>)
    ensures
        match deep(v@, models(stack@), depth as nat) {
            Ok(x) => r matches Ok(y) && y@ == x,
            Err(k) => r matches Err(e) && e@ == fault(k),
        },
    decreases depth, *v,
{
    match v {
        Variable::Return => Ok(Variable::Return),
        Variable::Bool(b) => Ok(Variable::Bool(*b)),
        Variable::Number(n) => Ok(Variable::Number(*n)),
        Variable::Text(t) => Ok(Variable::Text(t.clone())),
        Variable::Array(a) => {
            proof {
                array_model(*v);
            }
            let mut res: Vec<Variable> = Vec::new();
            let mut i: usize = 0;
            assert(models(res@) =~= Seq::empty());
            while i < a.len()
                invariant
                    i <= a.len(),
                    deep_items(models(a@).take(i as int), models(stack@), depth as nat) == Ok::<
                        Seq<Value>,
                        ErrorKind,
                    >(models(res@)),
                    decreases_to!(*v => *a),
                    v@ == Value::Array(models(a@)),
                decreases a.len() - i,
            {
                assert(models(a@).take(i + 1).drop_last() =~= models(a@).take(i as int));
                match deep_clone(&a[i], stack, depth) {
                    Ok(c) => {
                        let ghost before = res@;
                        res.push(c);
                        assert(models(res@) =~= models(before).push(c@));
                    },
                    Err(e) => {
                        proof {
                            deep_items_fail(models(a@), models(stack@), depth as nat, i + 1);
                        }
                        return Err(e);
                    },
                }
                i += 1;
            }
            let r = Variable::Array(res);
            proof {
                assert(models(a@).take(i as int) =~= models(a@));
                array_model(r);
            }
            Ok(r)
        },
        Variable::Object(o) => {
            proof {
                object_model(*v);
            }
            let mut res: Vec<(String, Variable)> = Vec::new();
            let mut i: usize = 0;
            assert(entry_models(res@) =~= Seq::empty());
            while i < o.len()
                invariant
                    i <= o.len(),
                    deep_entries(
                        entry_models(o@).take(i as int),
                        models(stack@),
                        depth as nat,
                    ) == Ok::<Seq<(Seq<char>, Value)>, ErrorKind>(entry_models(res@)),
                    decreases_to!(*v => *o),
                    v@ == Value::Object(entry_models(o@)),
                decreases o.len() - i,
            {
                assert(entry_models(o@).take(i + 1).drop_last() =~= entry_models(o@).take(
                    i as int,
                ));
                match deep_clone(&o[i].1, stack, depth) {
                    Ok(c) => {
                        let ghost before = res@;
                        let key = o[i].0.clone();
                        res.push((key, c));
                        assert(entry_models(res@) =~= entry_models(before).push((key@, c@)));
                    },
                    Err(e) => {
                        proof {
                            deep_entries_fail(
                                entry_models(o@),
                                models(stack@),
                                depth as nat,
                                i + 1,
                            );
                        }
                        return Err(e);
                    },
                }
                i += 1;
            }
            let r = Variable::Object(res);
            proof {
                assert(entry_models(o@).take(i as int) =~= entry_models(o@));
                object_model(r);
            }
            Ok(r)
        },
        Variable::StackRef(i) => {
            if *i >= stack.len() {
                Err(Error::new(ErrorKind::DanglingReference))
            } else if depth == 0 {
                Err(Error::new(ErrorKind::TooDeep))
            } else {
                deep_clone(&stack[*i], stack, depth - 1)
            }
        },
        Variable::RawRef(_) => Err(Error::new(ErrorKind::RawReference)),
    }
}

} // verus!
