//! Reading and writing a slot inside the value stack.

use vstd::prelude::*;
use crate::value::{
    Place, PlaceValue, Value, Variable, array_model, entry_models, models, object_model,
};

verus! {

/// The part of a container at position `p`: an array's element, or the value
/// of an object's entry.
pub open spec fn child(v: Value, p: usize) -> Option<Value> {
    match v {
        Value::Array(a) => if p < a.len() {
            Some(a[p as int])
        } else {
            None
        },
        Value::Object(o) => if p < o.len() {
            Some(o[p as int].1)
        } else {
            None
        },
        _ => None,
    }
}

/// The container `v` with `c` in place of its part at position `p`.
pub open spec fn with_child(v: Value, p: usize, c: Value) -> Value {
    match v {
        Value::Array(a) => if p < a.len() {
            Value::Array(a.update(p as int, c))
        } else {
            v
        },
        Value::Object(o) => if p < o.len() {
            Value::Object(o.update(p as int, (o[p as int].0, c)))
        } else {
            v
        },
        _ => v,
    }
}

/// The value reached from `v` along `path`, if the path exists in `v`.
pub open spec fn at(v: Value, path: Seq<usize>) -> Option<Value>
    decreases path.len(),
{
    if path.len() == 0 {
        Some(v)
    } else {
        match child(v, path[0]) {
            Some(c) => at(c, path.skip(1)),
            None => None,
        }
    }
}

/// The value `v` with `new` in place of what `path` reaches; `v` itself
/// where the path does not exist in it.
pub open spec fn put(v: Value, path: Seq<usize>, new: Value) -> Value
    decreases path.len(),
{
    if path.len() == 0 {
        new
    } else {
        match child(v, path[0]) {
            Some(c) => if at(c, path.skip(1)) is Some {
                with_child(v, path[0], put(c, path.skip(1), new))
            } else {
                v
            },
            None => v,
        }
    }
}

/// The value in the slot `place` of the stack, if there is such a slot.
pub open spec fn slot_at(stack: Seq<Value>, place: PlaceValue) -> Option<Value> {
    if place.slot < stack.len() {
        at(stack[place.slot as int], place.path)
    } else {
        None
    }
}

/// The stack with `new` in the slot `place`; the stack itself where it has no
/// such slot.
pub open spec fn slot_put(stack: Seq<Value>, place: PlaceValue, new: Value) -> Seq<Value> {
    if place.slot < stack.len() {
        stack.update(place.slot as int, put(stack[place.slot as int], place.path, new))
    } else {
        stack
    }
}

/// The value reached from `v` along `path` from its entry `k` on.
fn read_in<'a>(v: &'a Variable, path: &Vec<usize>, k: usize) -> (r: Option<&'a Variable>)
    requires
        k <= path.len(),
    ensures
        match r {
            Some(w) => at(v@, path@.skip(k as int)) == Some(w@),
            None => at(v@, path@.skip(k as int)) is None,
        },
    decreases path.len() - k,
{
    if k == path.len() {
        return Some(v);
    }
    let p = path[k];
    assert(path@.skip(k as int).skip(1) =~= path@.skip(k + 1));
    match v {
        Variable::Array(a) => {
            proof {
                array_model(*v);
            }
            if p < a.len() {
                read_in(&a[p], path, k + 1)
            } else {
                None
            }
        },
        Variable::Object(o) => {
            proof {
                object_model(*v);
            }
            if p < o.len() {
                read_in(&o[p].1, path, k + 1)
            } else {
                None
            }
        },
        _ => None,
    }
}

/// The value in the slot `place`, if the stack has such a slot.
pub fn read<'a>(stack: &'a Vec<Variable>, place: &Place) -> (r: Option<&'a Variable>)
    ensures
        match r {
            Some(w) => slot_at(models(stack@), place@) == Some(w@),
            None => slot_at(models(stack@), place@) is None,
        },
{
    if place.slot < stack.len() {
        assert(place.path@.skip(0) =~= place.path@);
        read_in(&stack[place.slot], &place.path, 0)
    } else {
        None
    }
}

/// Puts `new` in place of what `path`, from its entry `k` on, reaches in `v`.
fn write_in(v: &mut Variable, path: &Vec<usize>, k: usize, new: Variable) -> (done: bool)
    requires
        k <= path.len(),
    ensures
        done == at(old(v)@, path@.skip(k as int)).is_some(),
        final(v)@ == put(old(v)@, path@.skip(k as int), new@),
    decreases path.len() - k,
{
    if k == path.len() {
        *v = new;
        return true;
    }
    let p = path[k];
    assert(path@.skip(k as int).skip(1) =~= path@.skip(k + 1));
    let ghost before = *v;
    match v {
        Variable::Array(a) => {
            proof {
                array_model(before);
            }
            if p < a.len() {
                let ghost entries = a@;
                let done = write_in(&mut a[p], path, k + 1, new);
                proof {
                    array_model(*v);
                    assert(a@ == entries.update(p as int, a@[p as int]));
                    assert(models(a@) =~= models(entries).update(p as int, a@[p as int]@));
                    if !done {
                        assert(models(a@) =~= models(entries));
                    }
                    assert(v@ == put(before@, path@.skip(k as int), new@));
                }
                done
            } else {
                false
            }
        },
        Variable::Object(o) => {
            proof {
                object_model(before);
            }
            if p < o.len() {
                let ghost entries = o@;
                let done = write_in(&mut o[p].1, path, k + 1, new);
                proof {
                    object_model(*v);
                    assert(o@ == entries.update(p as int, o@[p as int]));
                    assert(o@[p as int].0 == entries[p as int].0);
                    assert(entry_models(o@) =~= entry_models(entries).update(
                        p as int,
                        (entries[p as int].0@, o@[p as int].1@),
                    ));
                    if !done {
                        assert(entry_models(o@) =~= entry_models(entries));
                    }
                    assert(v@ == put(before@, path@.skip(k as int), new@));
                }
                done
            } else {
                false
            }
        },
        _ => false,
    }
}

/// Puts `new` into the slot `place`. Returns whether the stack has such a
/// slot; where it has none, the stack stays as it is.
pub fn store(stack: &mut Vec<Variable>, place: &Place, new: Variable) -> (done: bool)
    ensures
        done == slot_at(models(old(stack)@), place@).is_some(),
        models(final(stack)@) == slot_put(models(old(stack)@), place@, new@),
        final(stack).len() == old(stack).len(),
{
    if place.slot < stack.len() {
        let ghost before = stack@;
        assert(place.path@.skip(0) =~= place.path@);
        let done = write_in(&mut stack[place.slot], &place.path, 0, new);
        proof {
            assert(stack@ == before.update(place.slot as int, stack@[place.slot as int]));
            assert(models(stack@) =~= models(before).update(
                place.slot as int,
                stack@[place.slot as int]@,
            ));
        }
        done
    } else {
        false
    }
}

/// The object `v` with one more entry, of key `key` and with an empty return
/// slot as its value; `None` where `v` is no object.
pub open spec fn with_entry(v: Value, key: Seq<char>) -> Option<Value> {
    match v {
        Value::Object(o) => Some(Value::Object(o.push((key, Value::Return)))),
        _ => None,
    }
}

/// The value `v` after a new entry of key `key` is added to the object that
/// `path` reaches in it; `v` itself where the path reaches no object.
pub open spec fn put_entry(v: Value, path: Seq<usize>, key: Seq<char>) -> Value {
    match at(v, path) {
        Some(target) => match with_entry(target, key) {
            Some(grown) => put(v, path, grown),
            None => v,
        },
        None => v,
    }
}

/// The rank of the entry that `put_entry` adds, if it adds one.
pub open spec fn new_entry_rank(v: Value, path: Seq<usize>) -> Option<nat> {
    match at(v, path) {
        Some(Value::Object(o)) => Some(o.len()),
        _ => None,
    }
}

/// Adds an entry to the object that `path`, from its entry `k` on, reaches in `v`.
fn append_in(v: &mut Variable, path: &Vec<usize>, k: usize, key: String) -> (rank: Option<usize>)
    requires
        k <= path.len(),
    ensures
        match rank {
            Some(r) => new_entry_rank(old(v)@, path@.skip(k as int)) == Some(r as nat),
            None => new_entry_rank(old(v)@, path@.skip(k as int)) is None,
        },
        final(v)@ == put_entry(old(v)@, path@.skip(k as int), key@),
    decreases path.len() - k,
{
    let ghost before = *v;
    if k == path.len() {
        match v {
            Variable::Object(o) => {
                proof {
                    object_model(before);
                }
                let ghost entries = o@;
                let rank = o.len();
                o.push((key, Variable::Return));
                proof {
                    object_model(*v);
                    assert(entry_models(o@) =~= entry_models(entries).push((key@, Value::Return)));
                }
                return Some(rank);
            },
            _ => {
                return None;
            },
        }
    }
    let p = path[k];
    assert(path@.skip(k as int).skip(1) =~= path@.skip(k + 1));
    match v {
        Variable::Array(a) => {
            proof {
                array_model(before);
            }
            if p < a.len() {
                let ghost entries = a@;
                let rank = append_in(&mut a[p], path, k + 1, key);
                proof {
                    array_model(*v);
                    assert(a@ == entries.update(p as int, a@[p as int]));
                    assert(models(a@) =~= models(entries).update(p as int, a@[p as int]@));
                    if rank is None {
                        assert(models(a@) =~= models(entries));
                    }
                    assert(v@ == put_entry(before@, path@.skip(k as int), key@));
                }
                rank
            } else {
                None
            }
        },
        Variable::Object(o) => {
            proof {
                object_model(before);
            }
            if p < o.len() {
                let ghost entries = o@;
                let rank = append_in(&mut o[p].1, path, k + 1, key);
                proof {
                    object_model(*v);
                    assert(o@ == entries.update(p as int, o@[p as int]));
                    assert(o@[p as int].0 == entries[p as int].0);
                    assert(entry_models(o@) =~= entry_models(entries).update(
                        p as int,
                        (entries[p as int].0@, o@[p as int].1@),
                    ));
                    if rank is None {
                        assert(entry_models(o@) =~= entry_models(entries));
                    }
                    assert(v@ == put_entry(before@, path@.skip(k as int), key@));
                }
                rank
            } else {
                None
            }
        },
        _ => None,
    }
}

/// The stack after a new entry of key `key` is added to the object in the
/// slot `place`; the stack itself where that slot holds no object.
pub open spec fn slot_put_entry(
    stack: Seq<Value>,
    place: PlaceValue,
    key: Seq<char>,
) -> Seq<Value> {
    if place.slot < stack.len() {
        stack.update(place.slot as int, put_entry(stack[place.slot as int], place.path, key))
    } else {
        stack
    }
}

/// Adds to the object in the slot `place` an entry of key `key`, with an empty
/// return slot as its value, and returns the rank of the new entry. Where the
/// slot holds no object, the stack stays as it is.
pub fn insert_entry(stack: &mut Vec<Variable>, place: &Place, key: String) -> (rank: Option<usize>)
    ensures
        match rank {
            Some(r) => slot_at(models(old(stack)@), place@) matches Some(Value::Object(o)) && r
                == o.len(),
            None => !(slot_at(models(old(stack)@), place@) matches Some(Value::Object(_))),
        },
        models(final(stack)@) == slot_put_entry(models(old(stack)@), place@, key@),
        final(stack).len() == old(stack).len(),
{
    if place.slot < stack.len() {
        let ghost before = stack@;
        assert(place.path@.skip(0) =~= place.path@);
        let rank = append_in(&mut stack[place.slot], &place.path, 0, key);
        proof {
            assert(stack@ == before.update(place.slot as int, stack@[place.slot as int]));
            assert(models(stack@) =~= models(before).update(
                place.slot as int,
                stack@[place.slot as int]@,
            ));
        }
        rank
    } else {
        None
    }
}

/// What was put along a path that exists is read back along it.
pub proof fn put_reads_back(v: Value, path: Seq<usize>, new: Value)
    requires
        at(v, path) is Some,
    ensures
        at(put(v, path, new), path) == Some(new),
    decreases path.len(),
{
    if path.len() > 0 {
        let c = child(v, path[0])->Some_0;
        put_reads_back(c, path.skip(1), new);
    }
}

/// Putting along one path changes nothing that another path reaches, if the
/// two part ways at some position: the paths agree before the entry `fork`
/// and differ in it.
pub proof fn put_keeps_apart(v: Value, path: Seq<usize>, other: Seq<usize>, fork: int, new: Value)
    requires
        0 <= fork < path.len(),
        fork < other.len(),
        forall|j: int| 0 <= j < fork ==> path[j] == other[j],
        path[fork] != other[fork],
    ensures
        at(put(v, path, new), other) == at(v, other),
    decreases path.len(),
{
    match child(v, path[0]) {
        Some(c) => {
            if at(c, path.skip(1)) is Some {
                if fork > 0 {
                    assert(path[0] == other[0]);
                    put_keeps_apart(c, path.skip(1), other.skip(1), fork - 1, new);
                }
            }
        },
        None => {},
    }
}

/// Putting along a path that is not empty keeps the container at its root:
/// an array stays an array of the same length, an object keeps its keys in
/// their order, and only the part that the path enters may differ.
pub proof fn put_keeps_root(v: Value, path: Seq<usize>, new: Value)
    requires
        path.len() > 0,
    ensures
        v matches Value::Array(a) ==> (put(v, path, new) matches Value::Array(b) && b.len()
            == a.len() && forall|i: int| 0 <= i < a.len() && i != path[0] ==> b[i] == a[i]),
        v matches Value::Object(o) ==> (put(v, path, new) matches Value::Object(q) && q.len()
            == o.len() && (forall|i: int| 0 <= i < o.len() ==> q[i].0 == o[i].0) && forall|i: int|
            0 <= i < o.len() && i != path[0] ==> q[i] == o[i]),
        !(v is Array) && !(v is Object) ==> put(v, path, new) == v,
{
}

/// What was put into a slot of the stack is read back from it.
pub proof fn slot_put_reads_back(stack: Seq<Value>, place: PlaceValue, new: Value)
    requires
        slot_at(stack, place) is Some,
    ensures
        slot_at(slot_put(stack, place, new), place) == Some(new),
{
    put_reads_back(stack[place.slot as int], place.path, new);
}

/// Writing into one slot of the stack leaves every other slot as it is.
pub proof fn slot_put_keeps_others(stack: Seq<Value>, place: PlaceValue, new: Value, i: int)
    requires
        0 <= i < stack.len(),
        i != place.slot,
    ensures
        slot_put(stack, place, new).len() == stack.len(),
        slot_put(stack, place, new)[i] == stack[i],
{
}

} // verus!
