//! The keys of an object are distinct, in every object that an evaluation
//! makes: an object literal refuses a key that occurs twice, and a key is
//! inserted into an object only where the object lacks it. This module
//! states that of values, and proves that the operations on values keep it.

use vstd::prelude::*;
use crate::assign::{assigned, committed, materialized};
use crate::ast::AssignOp;
use crate::builtins::Builtin;
use crate::deep::{deep, deep_entries, deep_items};
use crate::flow::Side;
use crate::host::Exchange;
use crate::lookup::{
    SegmentValue, TargetValue, deeper, followed, item_emitted, key_rank, start, walked,
};
use crate::ops::Outcome;
use crate::place::{at, child, put, put_entry, slot_at, slot_put, slot_put_entry, with_child};
use crate::semantics::{Sem, sem_apply, sem_carry, sem_commit, sem_read_number};
use crate::value::{PlaceValue, Value, cut, resolved};

verus! {

/// Whether no key occurs twice among the entries.
pub open spec fn distinct_keys(entries: Seq<(Seq<char>, Value)>) -> bool {
    forall|i: int, j: int| 0 <= i < j < entries.len() ==> entries[i].0 != entries[j].0
}

/// Whether the keys of every object in the value, at any depth, are distinct.
pub open spec fn well_formed(v: Value) -> bool
    decreases v,
{
    match v {
        Value::Object(o) => distinct_keys(o) && forall|i: int|
            0 <= i < o.len() ==> well_formed((#[trigger] o[i]).1),
        Value::Array(a) => forall|i: int| 0 <= i < a.len() ==> well_formed(#[trigger] a[i]),
        _ => true,
    }
}

/// Whether every one of the values is well formed.
pub open spec fn all_well_formed(values: Seq<Value>) -> bool {
    forall|i: int| 0 <= i < values.len() ==> well_formed(#[trigger] values[i])
}

/// The parts of a well-formed value are well formed.
pub proof fn child_is_well_formed(v: Value, p: usize)
    requires
        well_formed(v),
        child(v, p) is Some,
    ensures
        well_formed(child(v, p)->Some_0),
{
}

/// What a path reaches in a well-formed value is well formed.
pub proof fn at_is_well_formed(v: Value, path: Seq<usize>)
    requires
        well_formed(v),
        at(v, path) is Some,
    ensures
        well_formed(at(v, path)->Some_0),
    decreases path.len(),
{
    if path.len() > 0 {
        child_is_well_formed(v, path[0]);
        at_is_well_formed(child(v, path[0])->Some_0, path.skip(1));
    }
}

/// A well-formed value stays well formed when one of its parts is replaced
/// by a well-formed value.
pub proof fn with_child_is_well_formed(v: Value, p: usize, c: Value)
    requires
        well_formed(v),
        well_formed(c),
    ensures
        well_formed(with_child(v, p, c)),
{
    match v {
        Value::Array(a) => {
            if p < a.len() {
                let b = a.update(p as int, c);
                assert forall|i: int| 0 <= i < b.len() implies well_formed(#[trigger] b[i]) by {
                    if i != p {
                        assert(well_formed(a[i]));
                    }
                }
            }
        },
        Value::Object(o) => {
            if p < o.len() {
                let q = o.update(p as int, (o[p as int].0, c));
                assert forall|i: int| 0 <= i < q.len() implies well_formed((#[trigger] q[i]).1) by {
                    if i != p {
                        assert(well_formed(o[i].1));
                    }
                }
                assert forall|i: int, j: int| 0 <= i < j < q.len() implies q[i].0 != q[j].0 by {
                    assert(q[i].0 == o[i].0);
                    assert(q[j].0 == o[j].0);
                }
            }
        },
        _ => {},
    }
}

/// A well-formed value stays well formed when a well-formed value is put
/// along a path.
pub proof fn put_is_well_formed(v: Value, path: Seq<usize>, new: Value)
    requires
        well_formed(v),
        well_formed(new),
    ensures
        well_formed(put(v, path, new)),
    decreases path.len(),
{
    if path.len() > 0 {
        match child(v, path[0]) {
            Some(c) => {
                if at(c, path.skip(1)) is Some {
                    child_is_well_formed(v, path[0]);
                    put_is_well_formed(c, path.skip(1), new);
                    with_child_is_well_formed(v, path[0], put(c, path.skip(1), new));
                }
            },
            None => {},
        }
    }
}

/// Where no entry has the key, no entry is found by it; and the other way round.
pub proof fn absent_key(entries: Seq<(Seq<char>, Value)>, key: Seq<char>)
    ensures
        key_rank(entries, key) is None <==> forall|i: int|
            0 <= i < entries.len() ==> entries[i].0 != key,
    decreases entries.len(),
{
    if entries.len() > 0 {
        absent_key(entries.drop_last(), key);
        if key_rank(entries, key) is None {
            assert forall|i: int| 0 <= i < entries.len() implies entries[i].0 != key by {
                if i < entries.len() - 1 {
                    assert(entries.drop_last()[i] == entries[i]);
                }
            }
        } else {
            if forall|i: int| 0 <= i < entries.len() ==> entries[i].0 != key {
                let front = entries.drop_last();
                assert forall|i: int| 0 <= i < front.len() implies front[i].0 != key by {
                    assert(entries.drop_last()[i] == entries[i]);
                }
                assert(entries.last() == entries[entries.len() - 1]);
            }
        }
    }
}

/// A well-formed object stays well formed when an entry is added whose key
/// it lacks and whose value is well formed.
pub proof fn entry_added(entries: Seq<(Seq<char>, Value)>, key: Seq<char>, v: Value)
    requires
        well_formed(Value::Object(entries)),
        key_rank(entries, key) is None,
        well_formed(v),
    ensures
        well_formed(Value::Object(entries.push((key, v)))),
{
    absent_key(entries, key);
    let grown = entries.push((key, v));
    assert forall|i: int| 0 <= i < grown.len() implies well_formed((#[trigger] grown[i]).1) by {
        if i < entries.len() {
            assert(well_formed(entries[i].1));
        }
    }
    assert forall|i: int, j: int| 0 <= i < j < grown.len() implies grown[i].0 != grown[j].0 by {
        if j < entries.len() {
            assert(grown[i] == entries[i]);
            assert(grown[j] == entries[j]);
        } else {
            assert(grown[i] == entries[i]);
        }
    }
}

/// A well-formed value stays well formed when a key is inserted into an
/// object in it that lacks the key.
pub proof fn put_entry_is_well_formed(v: Value, path: Seq<usize>, key: Seq<char>)
    requires
        well_formed(v),
        at(v, path) matches Some(Value::Object(o)) && key_rank(o, key) is None,
    ensures
        well_formed(put_entry(v, path, key)),
{
    at_is_well_formed(v, path);
    let o = at(v, path)->Some_0->Object_0;
    entry_added(o, key, Value::Return);
    put_is_well_formed(v, path, Value::Object(o.push((key, Value::Return))));
}

/// The deep copy of a well-formed value on a stack of well-formed values is
/// well formed.
pub proof fn deep_is_well_formed(v: Value, stack: Seq<Value>, depth: nat)
    requires
        well_formed(v),
        all_well_formed(stack),
        deep(v, stack, depth) is Ok,
    ensures
        well_formed(deep(v, stack, depth)->Ok_0),
    decreases depth, v,
{
    match v {
        Value::Array(a) => {
            assert forall|i: int| 0 <= i < a.len() implies well_formed(a[i]) by {}
            deep_items_are_well_formed(a, stack, depth);
        },
        Value::Object(o) => {
            assert forall|i: int| 0 <= i < o.len() implies well_formed(o[i].1) by {}
            deep_entries_are_well_formed(o, stack, depth);
            let r = deep_entries(o, stack, depth)->Ok_0;
            assert forall|i: int, j: int| 0 <= i < j < r.len() implies r[i].0 != r[j].0 by {
                assert(r[i].0 == o[i].0);
                assert(r[j].0 == o[j].0);
            }
        },
        Value::StackRef(i) => {
            assert(well_formed(stack[i as int]));
            deep_is_well_formed(stack[i as int], stack, (depth - 1) as nat);
        },
        _ => {},
    }
}

proof fn deep_items_are_well_formed(items: Seq<Value>, stack: Seq<Value>, depth: nat)
    requires
        forall|i: int| 0 <= i < items.len() ==> well_formed(items[i]),
        all_well_formed(stack),
        deep_items(items, stack, depth) is Ok,
    ensures
        deep_items(items, stack, depth)->Ok_0.len() == items.len(),
        forall|i: int|
            0 <= i < items.len() ==> well_formed(
                #[trigger] deep_items(items, stack, depth)->Ok_0[i],
            ),
    decreases depth, items,
{
    if items.len() > 0 {
        assert forall|i: int| 0 <= i < items.drop_last().len() implies well_formed(
            items.drop_last()[i],
        ) by {
            assert(items.drop_last()[i] == items[i]);
        }
        deep_items_are_well_formed(items.drop_last(), stack, depth);
        assert(well_formed(items[items.len() - 1]));
        deep_is_well_formed(items.last(), stack, depth);
    }
}

proof fn deep_entries_are_well_formed(
    entries: Seq<(Seq<char>, Value)>,
    stack: Seq<Value>,
    depth: nat,
)
    requires
        forall|i: int| 0 <= i < entries.len() ==> well_formed(entries[i].1),
        all_well_formed(stack),
        deep_entries(entries, stack, depth) is Ok,
    ensures
        deep_entries(entries, stack, depth)->Ok_0.len() == entries.len(),
        forall|i: int|
            0 <= i < entries.len() ==> well_formed(
                (#[trigger] deep_entries(entries, stack, depth)->Ok_0[i]).1,
            ) && deep_entries(entries, stack, depth)->Ok_0[i].0 == entries[i].0,
    decreases depth, entries,
{
    if entries.len() > 0 {
        assert forall|i: int| 0 <= i < entries.drop_last().len() implies well_formed(
            entries.drop_last()[i].1,
        ) by {
            assert(entries.drop_last()[i] == entries[i]);
        }
        deep_entries_are_well_formed(entries.drop_last(), stack, depth);
        assert(well_formed(entries[entries.len() - 1].1));
        deep_is_well_formed(entries.last().1, stack, depth);
        let front = deep_entries(entries.drop_last(), stack, depth)->Ok_0;
        let r = deep_entries(entries, stack, depth)->Ok_0;
        assert forall|i: int| 0 <= i < entries.len() implies well_formed((#[trigger] r[i]).1)
            && r[i].0 == entries[i].0 by {
            if i < entries.len() - 1 {
                assert(r[i] == front[i]);
                assert(well_formed(front[i].1));
                assert(entries.drop_last()[i] == entries[i]);
            }
        }
    }
}

/// What a slot of a stack of well-formed values holds is well formed.
pub proof fn slot_is_well_formed(stack: Seq<Value>, place: PlaceValue)
    requires
        all_well_formed(stack),
        slot_at(stack, place) is Some,
    ensures
        well_formed(slot_at(stack, place)->Some_0),
{
    assert(well_formed(stack[place.slot as int]));
    at_is_well_formed(stack[place.slot as int], place.path);
}

/// A stack of well-formed values stays one when a well-formed value is put
/// into a slot.
pub proof fn slot_put_is_well_formed(stack: Seq<Value>, place: PlaceValue, new: Value)
    requires
        all_well_formed(stack),
        well_formed(new),
    ensures
        all_well_formed(slot_put(stack, place, new)),
{
    if place.slot < stack.len() {
        assert(well_formed(stack[place.slot as int]));
        put_is_well_formed(stack[place.slot as int], place.path, new);
        let after = slot_put(stack, place, new);
        assert forall|i: int| 0 <= i < after.len() implies well_formed(#[trigger] after[i]) by {
            if i != place.slot {
                assert(well_formed(stack[i]));
            }
        }
    }
}

/// A stack of well-formed values stays one when a key is inserted into an
/// object in a slot that lacks the key.
pub proof fn slot_put_entry_is_well_formed(stack: Seq<Value>, place: PlaceValue, key: Seq<char>)
    requires
        all_well_formed(stack),
        slot_at(stack, place) matches Some(Value::Object(o)) && key_rank(o, key) is None,
    ensures
        all_well_formed(slot_put_entry(stack, place, key)),
{
    assert(well_formed(stack[place.slot as int]));
    put_entry_is_well_formed(stack[place.slot as int], place.path, key);
    let after = slot_put_entry(stack, place, key);
    assert forall|i: int| 0 <= i < after.len() implies well_formed(#[trigger] after[i]) by {
        if i != place.slot {
            assert(well_formed(stack[i]));
        }
    }
}

/// A stack of well-formed values stays one when it is cut back and a
/// well-formed value is put on top.
pub proof fn cut_and_push_is_well_formed(stack: Seq<Value>, height: int, v: Value)
    requires
        all_well_formed(stack),
        well_formed(v),
    ensures
        all_well_formed(cut(stack, height)),
        all_well_formed(cut(stack, height).push(v)),
        all_well_formed(stack.push(v)),
{
    let lower = cut(stack, height);
    assert forall|i: int| 0 <= i < lower.len() implies well_formed(#[trigger] lower[i]) by {
        assert(well_formed(stack[i]));
    }
    let after = lower.push(v);
    assert forall|i: int| 0 <= i < after.len() implies well_formed(#[trigger] after[i]) by {
        if i < lower.len() {
            assert(well_formed(stack[i]));
        }
    }
    let higher = stack.push(v);
    assert forall|i: int| 0 <= i < higher.len() implies well_formed(#[trigger] higher[i]) by {
        if i < stack.len() {
            assert(well_formed(stack[i]));
        }
    }
}

/// Where a walk ends at a key that may be inserted, the slot it ends in
/// holds an object that lacks the key.
pub proof fn walked_to_absent_key(
    stack: Seq<Value>,
    place: PlaceValue,
    segments: Seq<SegmentValue>,
    insert: bool,
)
    requires
        walked(stack, place, segments, insert) is Ok,
    ensures
        walked(stack, place, segments, insert) matches Ok(TargetValue::NewEntry(p, key)) ==> (
        slot_at(stack, p) matches Some(Value::Object(o)) && key_rank(o, key) is None),
    decreases segments.len(),
{
    if segments.len() > 1 {
        match slot_at(stack, place) {
            Some(cur) => match crate::lookup::entered(cur, segments[0]) {
                Ok(Some(p)) => {
                    walked_to_absent_key(
                        stack,
                        followed(stack, deeper(place, p)),
                        segments.skip(1),
                        insert,
                    );
                },
                _ => {},
            },
            None => {},
        }
    }
}

/// A stack of well-formed values stays one through the evaluation of an item.
pub proof fn item_emitted_is_well_formed(
    stack: Seq<Value>,
    locals: Seq<(Seq<char>, usize)>,
    frames: Seq<(Seq<char>, usize, usize)>,
    name: Seq<char>,
    segments: Seq<SegmentValue>,
    side: Side,
    base: int,
    depth: nat,
)
    requires
        all_well_formed(stack),
        item_emitted(stack, locals, frames, name, segments, side, base, depth) is Ok,
    ensures
        all_well_formed(
            item_emitted(stack, locals, frames, name, segments, side, base, depth)->Ok_0,
        ),
{
    let local_base = crate::lookup::frame_base(frames)->Some_0;
    let id = crate::lookup::local_slot(locals, local_base as int, name)->Some_0;
    if segments.len() == 0 {
        cut_and_push_is_well_formed(stack, base, Value::StackRef(id));
    } else {
        let insert = side == Side::LeftInsert(true);
        let target = walked(stack, start(stack, id), segments, insert)->Ok_0;
        walked_to_absent_key(stack, start(stack, id), segments, insert);
        match target {
            TargetValue::Slot(p) => {
                match side {
                    Side::Right => {
                        slot_is_well_formed(stack, p);
                        let v = slot_at(stack, p)->Some_0;
                        deep_is_well_formed(v, stack, depth);
                        cut_and_push_is_well_formed(stack, base, deep(v, stack, depth)->Ok_0);
                    },
                    Side::LeftInsert(_) => {
                        cut_and_push_is_well_formed(stack, base, Value::RawRef(p));
                    },
                }
            },
            TargetValue::NewEntry(p, key) => {
                slot_put_entry_is_well_formed(stack, p, key);
                let grown = slot_put_entry(stack, p, key);
                let place = deeper(p, slot_at(stack, p)->Some_0->Object_0.len() as usize);
                match side {
                    Side::Right => {
                        slot_is_well_formed(grown, place);
                        let v = slot_at(grown, place)->Some_0;
                        deep_is_well_formed(v, grown, depth);
                        cut_and_push_is_well_formed(grown, base, deep(v, grown, depth)->Ok_0);
                    },
                    Side::LeftInsert(_) => {
                        cut_and_push_is_well_formed(grown, base, Value::RawRef(place));
                    },
                }
            },
        }
    }
}

/// What an assignment of well-formed values puts into a slot is well formed.
pub proof fn assigned_is_well_formed(op: AssignOp, target: Value, source: Value)
    requires
        well_formed(target),
        well_formed(source),
    ensures
        assigned(op, target, source) matches Ok(Outcome::Value(v)) ==> well_formed(v),
{
}

/// A stack of well-formed values stays one through an updating assignment
/// of a well-formed value.
pub proof fn commit_is_well_formed(
    stack: Seq<Value>,
    op: AssignOp,
    handle: Value,
    new: Value,
    asked: nat,
    record: Seq<Exchange>,
)
    requires
        all_well_formed(stack),
        well_formed(new),
    ensures
        sem_commit(stack, op, handle, new, asked, record) matches Sem::Done((after, _))
            ==> all_well_formed(after),
{
    if sem_commit(stack, op, handle, new, asked, record) is Done {
        let c = committed(stack, op, handle, new)->Ok_0;
        match handle {
            Value::RawRef(p) => match slot_at(stack, p) {
                Some(Value::StackRef(i)) => {
                    assert(well_formed(stack[i as int]));
                    slot_put_is_well_formed(stack, p, stack[i as int]);
                },
                _ => {},
            },
            _ => {},
        }
        let ready = materialized(stack, handle)->Ok_0;
        assert(c.stack == ready);
        let source = resolved(ready, new)->Some_0;
        match new {
            Value::StackRef(i) => {
                assert(well_formed(ready[i as int]));
            },
            _ => {},
        }
        slot_is_well_formed(ready, c.place);
        let target = slot_at(ready, c.place)->Some_0;
        assigned_is_well_formed(op, target, source);
        let put = sem_carry(c.outcome, asked, record)->Done_0.0;
        slot_put_is_well_formed(ready, c.place, put);
    }
}

/// What `read_number` yields is a number.
pub proof fn read_number_is_well_formed(
    message: Seq<char>,
    budget: nat,
    asked: nat,
    record: Seq<Exchange>,
)
    ensures
        sem_read_number(message, budget, asked, record) matches Sem::Done((Some(v), _, _))
            ==> v is Number,
    decreases budget,
{
    if budget > 0 {
        read_number_is_well_formed(message, (budget - 1) as nat, asked + 4, record);
    }
}

/// What a built-in procedure yields on a stack of well-formed values, for
/// a well-formed argument, is well formed.
pub proof fn apply_is_well_formed(
    b: Builtin,
    arg: Option<Value>,
    stack: Seq<Value>,
    locals: Seq<(Seq<char>, usize)>,
    frames: Seq<(Seq<char>, usize, usize)>,
    budget: nat,
    asked: nat,
    record: Seq<Exchange>,
)
    requires
        all_well_formed(stack),
        arg matches Some(v) ==> well_formed(v),
    ensures
        sem_apply(b, arg, stack, locals, frames, budget, asked, record) matches Sem::Done(
            (Some(v), _, _),
        ) ==> well_formed(v),
{
    match arg {
        Some(v) => {
            if b == Builtin::Clone && deep(v, stack, stack.len()) is Ok {
                deep_is_well_formed(v, stack, stack.len());
            }
            if b == Builtin::ReadNumber {
                match resolved(stack, v) {
                    Some(Value::Text(message)) => {
                        read_number_is_well_formed(message, budget, asked, record);
                    },
                    _ => {},
                }
            }
        },
        None => {},
    }
}

} // verus!
