//! Resolving a name and a path to a slot of the value stack.

use vstd::prelude::*;
use crate::deep::{closed, deep, deep_clone, deep_is_closed};
use crate::error::{Error, ErrorKind, Fault, fault, fault_about};
use crate::flow::Side;
use crate::number::{index_of, number_index};
use crate::place::{insert_entry, read, slot_at, slot_put_entry};
use crate::value::{
    Place, PlaceValue, Value, Variable, array_model, cut, entry_models, models, object_model,
    resolve, resolved,
};

verus! {

/// The models of the local bindings.
pub open spec fn local_models(locals: Seq<(String, usize)>) -> Seq<(Seq<char>, usize)> {
    Seq::new(locals.len(), |i: int| (locals[i].0@, locals[i].1))
}

/// The models of the frames of the calls under way.
pub open spec fn frame_models(frames: Seq<(String, usize, usize)>) -> Seq<
    (Seq<char>, usize, usize),
> {
    Seq::new(frames.len(), |i: int| (frames[i].0@, frames[i].1, frames[i].2))
}

/// The stack slot bound to `name` by the latest of the bindings from
/// position `base` on, if one of them binds it.
pub open spec fn local_slot(locals: Seq<(Seq<char>, usize)>, base: int, name: Seq<char>) -> Option<
    usize,
>
    decreases locals.len(),
{
    if locals.len() == 0 || locals.len() <= base {
        None
    } else if locals.last().0 == name {
        Some(locals.last().1)
    } else {
        local_slot(locals.drop_last(), base, name)
    }
}

/// Looks `name` up among the bindings of the current frame, which begin at
/// position `base`: from the latest back to the first.
pub fn find_local(locals: &Vec<(String, usize)>, base: usize, name: &String) -> (r: Option<
    usize,
>)
    ensures
        r == local_slot(local_models(locals@), base as int, name@),
{
    let mut i = locals.len();
    assert(local_models(locals@).take(i as int) =~= local_models(locals@));
    while i > base
        invariant
            i <= locals.len(),
            local_slot(local_models(locals@), base as int, name@) == local_slot(
                local_models(locals@).take(i as int),
                base as int,
                name@,
            ),
        decreases i,
    {
        assert(local_models(locals@).take(i as int).drop_last() =~= local_models(locals@).take(
            i - 1,
        ));
        if locals[i - 1].0 == *name {
            return Some(locals[i - 1].1);
        }
        i -= 1;
    }
    None
}

/// The rank of the first entry with the key `key`, if there is one.
pub open spec fn key_rank(entries: Seq<(Seq<char>, Value)>, key: Seq<char>) -> Option<usize>
    decreases entries.len(),
{
    if entries.len() == 0 {
        None
    } else {
        match key_rank(entries.drop_last(), key) {
            Some(r) => Some(r),
            None => if entries.last().0 == key {
                Some((entries.len() - 1) as usize)
            } else {
                None
            },
        }
    }
}

/// Looks for the first entry of an object with the key `key`.
pub fn find_key(entries: &Vec<(String, Variable)>, key: &String) -> (r: Option<usize>)
    ensures
        r == key_rank(entry_models(entries@), key@),
        r matches Some(i) ==> i < entries.len(),
{
    let mut found: Option<usize> = None;
    let mut i: usize = 0;
    while i < entries.len()
        invariant
            i <= entries.len(),
            found == key_rank(entry_models(entries@).take(i as int), key@),
            found matches Some(j) ==> j < i,
        decreases entries.len() - i,
    {
        assert(entry_models(entries@).take(i + 1).drop_last() =~= entry_models(entries@).take(
            i as int,
        ));
        if found.is_none() && entries[i].0 == *key {
            found = Some(i);
        }
        i += 1;
    }
    assert(entry_models(entries@).take(i as int) =~= entry_models(entries@));
    found
}

/// One segment of a path, once it is known: the key of an object's entry or
/// the number that indexes an array.
#[derive(Debug)]
pub enum Segment {
    Key(String),
    Number(u64),
}

/// The model of a `Segment`.
pub enum SegmentValue {
    Key(Seq<char>),
    Number(u64),
}

impl View for Segment {
    type V = SegmentValue;

    open spec fn view(&self) -> SegmentValue {
        match self {
            Segment::Key(k) => SegmentValue::Key(k@),
            Segment::Number(n) => SegmentValue::Number(*n),
        }
    }
}

/// The models of the segments of a path.
pub open spec fn segment_models(segments: Seq<Segment>) -> Seq<SegmentValue> {
    Seq::new(segments.len(), |i: int| segments[i]@)
}

/// The segment that the value of a bracketed expression makes: a text is a
/// key, a number an index, a reference stands for the slot it points to, and
/// anything else is refused.
pub open spec fn computed_segment(stack: Seq<Value>, v: Value) -> Result<SegmentValue, ErrorKind> {
    match resolved(stack, v) {
        None => Err(ErrorKind::DanglingReference),
        Some(Value::Text(t)) => Ok(SegmentValue::Key(t)),
        Some(Value::Number(n)) => Ok(SegmentValue::Number(n)),
        Some(_) => Err(ErrorKind::ExpectedKeyOrIndex),
    }
}

/// Makes a segment of the value of a bracketed expression.
pub fn segment_of(stack: &Vec<Variable>, v: &Variable) -> (r: Result<Segment, Error>)
    ensures
        match computed_segment(models(stack@), v@) {
            Ok(s) => r matches Ok(x) && x@ == s,
            Err(k) => r matches Err(e) && e@ == fault(k),
        },
{
    match resolve(stack, v) {
        None => Err(Error::new(ErrorKind::DanglingReference)),
        Some(w) => match w {
            Variable::Text(t) => Ok(Segment::Key(t.clone())),
            Variable::Number(n) => Ok(Segment::Number(*n)),
            _ => Err(Error::new(ErrorKind::ExpectedKeyOrIndex)),
        },
    }
}

/// Where a segment leads inside the container `cur`: to the part of that
/// position, or, for a key that an object lacks, nowhere.
pub open spec fn entered(cur: Value, segment: SegmentValue) -> Result<Option<usize>, ErrorKind> {
    match cur {
        Value::Object(o) => match segment {
            SegmentValue::Key(k) => Ok(key_rank(o, k)),
            SegmentValue::Number(_) => Err(ErrorKind::ExpectedKey),
        },
        Value::Array(a) => match segment {
            SegmentValue::Number(n) => if number_index(n) < a.len() {
                Ok(Some(number_index(n) as usize))
            } else {
                Err(ErrorKind::IndexOutOfRange)
            },
            SegmentValue::Key(_) => Err(ErrorKind::ExpectedIndex),
        },
        _ => Err(ErrorKind::ExpectedContainer),
    }
}

/// Applies one segment to the container `cur`.
pub fn enter(cur: &Variable, segment: &Segment) -> (r: Result<Option<usize>, Error>)
    ensures
        match entered(cur@, segment@) {
            Ok(p) => r == Ok::<Option<usize>, Error>(p),
            Err(k) => r matches Err(e) && e@ == fault(k),
        },
{
    match cur {
        Variable::Object(o) => {
            proof {
                object_model(*cur);
            }
            match segment {
                Segment::Key(k) => Ok(find_key(o, k)),
                Segment::Number(_) => Err(Error::new(ErrorKind::ExpectedKey)),
            }
        },
        Variable::Array(a) => {
            proof {
                array_model(*cur);
            }
            match segment {
                Segment::Number(n) => {
                    let i = index_of(*n);
                    if i < a.len() as u64 {
                        Ok(Some(i as usize))
                    } else {
                        Err(Error::new(ErrorKind::IndexOutOfRange))
                    }
                },
                Segment::Key(_) => Err(Error::new(ErrorKind::ExpectedIndex)),
            }
        },
        _ => Err(Error::new(ErrorKind::ExpectedContainer)),
    }
}

/// What a path resolves to.
#[derive(Debug)]
pub enum Target {
    /// A slot that exists.
    Slot(Place),
    /// A key that the object in that slot lacks, and that may be inserted.
    NewEntry(Place, String),
}

/// The model of a `Target`.
pub enum TargetValue {
    Slot(PlaceValue),
    NewEntry(PlaceValue, Seq<char>),
}

impl View for Target {
    type V = TargetValue;

    open spec fn view(&self) -> TargetValue {
        match self {
            Target::Slot(p) => TargetValue::Slot(p@),
            Target::NewEntry(p, k) => TargetValue::NewEntry(p@, k@),
        }
    }
}

/// The slot one step further down from `place`.
pub open spec fn deeper(place: PlaceValue, p: usize) -> PlaceValue {
    PlaceValue { slot: place.slot, path: place.path.push(p) }
}

/// The slot from which the walk goes on after it has reached `next`: where
/// `next` holds a reference into the stack, the slot referred to.
pub open spec fn followed(stack: Seq<Value>, next: PlaceValue) -> PlaceValue {
    match slot_at(stack, next) {
        Some(Value::StackRef(i)) => PlaceValue { slot: i, path: Seq::empty() },
        _ => next,
    }
}

/// Walks the segments of a path, starting in the slot `place`.
///
/// Each segment is applied to the container reached so far. A reference into
/// the stack is followed where the walk goes on, and kept where it ends:
/// the slot of the last segment is returned as it is. A key that an object
/// lacks is an error that names the key, unless it is the last segment and
/// `insert` is set.
pub open spec fn walked(
    stack: Seq<Value>,
    place: PlaceValue,
    segments: Seq<SegmentValue>,
    insert: bool,
) -> Result<TargetValue, Fault>
    decreases segments.len(),
{
    if segments.len() == 0 {
        Ok(TargetValue::Slot(place))
    } else {
        match slot_at(stack, place) {
            None => Err(fault(ErrorKind::DanglingReference)),
            Some(cur) => match entered(cur, segments[0]) {
                Err(k) => Err(fault(k)),
                Ok(None) => if insert && segments.len() == 1 {
                    Ok(TargetValue::NewEntry(place, segments[0]->Key_0))
                } else {
                    Err(
                        fault_about(
                            ErrorKind::MissingKey,
                            match segments[0] {
                                SegmentValue::Key(key) => key,
                                SegmentValue::Number(_) => Seq::empty(),
                            },
                        ),
                    )
                },
                Ok(Some(p)) => if segments.len() == 1 {
                    Ok(TargetValue::Slot(deeper(place, p)))
                } else {
                    walked(stack, followed(stack, deeper(place, p)), segments.skip(1), insert)
                },
            },
        }
    }
}

/// The slot in which the walk of a path begins, for a local bound to the
/// stack slot `id`: that slot, or the one it refers to.
pub open spec fn start(stack: Seq<Value>, id: usize) -> PlaceValue {
    followed(stack, PlaceValue { slot: id, path: Seq::empty() })
}

fn follow(stack: &Vec<Variable>, next: Place) -> (r: Place)
    ensures
        r@ == followed(models(stack@), next@),
{
    match read(stack, &next) {
        Some(Variable::StackRef(i)) => Place { slot: *i, path: Vec::new() },
        _ => next,
    }
}

/// Walks the segments of a path from the slot of the local bound to `id`.
pub fn walk(stack: &Vec<Variable>, id: usize, segments: &Vec<Segment>, insert: bool) -> (r: Result<
    Target,
    Error,
>)
    ensures
        match walked(models(stack@), start(models(stack@), id), segment_models(segments@), insert) {
            Ok(t) => r matches Ok(x) && x@ == t,
            Err(f) => r matches Err(e) && e@ == f,
        },
        r matches Ok(Target::NewEntry(p, _)) ==> slot_at(models(stack@), p@) matches Some(
            Value::Object(_),
        ),
{
    let mut place = follow(stack, Place { slot: id, path: Vec::new() });
    let ghost goal = walked(
        models(stack@),
        start(models(stack@), id),
        segment_models(segments@),
        insert,
    );
    let mut k: usize = 0;
    assert(segment_models(segments@).skip(0) =~= segment_models(segments@));
    while k < segments.len()
        invariant
            k <= segments.len(),
            goal == walked(
                models(stack@),
                start(models(stack@), id),
                segment_models(segments@),
                insert,
            ),
            goal == walked(
                models(stack@),
                place@,
                segment_models(segments@).skip(k as int),
                insert,
            ),
        decreases segments.len() - k,
    {
        let ghost rest = segment_models(segments@).skip(k as int);
        assert(rest.skip(1) =~= segment_models(segments@).skip(k + 1));
        assert(rest[0] == segments[k as int]@);
        let last = k + 1 == segments.len();
        let cur = match read(stack, &place) {
            None => {
                return Err(Error::new(ErrorKind::DanglingReference));
            },
            Some(cur) => cur,
        };
        match enter(cur, &segments[k]) {
            Err(e) => {
                return Err(e);
            },
            Ok(None) => {
                match &segments[k] {
                    Segment::Key(key) => {
                        if insert && last {
                            assert(slot_at(models(stack@), place@) matches Some(Value::Object(_)));
                            return Ok(Target::NewEntry(place, key.clone()));
                        } else {
                            return Err(Error::about(ErrorKind::MissingKey, key.as_str()));
                        }
                    },
                    Segment::Number(_) => {
                        return Err(Error::new(ErrorKind::MissingKey));
                    },
                }
            },
            Ok(Some(p)) => {
                let ghost before = place@;
                place.path.push(p);
                assert(place@ == deeper(before, p));
                if last {
                    return Ok(Target::Slot(place));
                }
                place = follow(stack, place);
            },
        }
        k += 1;
    }
    Ok(Target::Slot(place))
}

/// The height of the local bindings below the current frame, if a call is
/// under way.
pub open spec fn frame_base(frames: Seq<(Seq<char>, usize, usize)>) -> Option<usize> {
    if frames.len() == 0 {
        None
    } else {
        Some(frames.last().2)
    }
}

/// The value stack after an item was evaluated, or the failure of its
/// evaluation.
///
/// `stack` is the value stack once the bracketed expressions of the path are
/// evaluated, `segments` the path with their values in it, and `base` the
/// height of the stack before they were evaluated. The name is looked up
/// among the bindings of the current frame; the failure to find it names
/// it. Without a path, a reference to
/// the local's slot is left on the stack. With a path, the path is walked; a
/// key that the last object lacks is inserted with an empty return slot
/// where the side says so; then the stack is cut back to `base`, if it is
/// higher, and on it is left a deep copy of the slot's value, for the right
/// side, or a handle to the slot, for the left side.
pub open spec fn item_emitted(
    stack: Seq<Value>,
    locals: Seq<(Seq<char>, usize)>,
    frames: Seq<(Seq<char>, usize, usize)>,
    name: Seq<char>,
    segments: Seq<SegmentValue>,
    side: Side,
    base: int,
    depth: nat,
) -> Result<Seq<Value>, Fault> {
    match frame_base(frames) {
        None => Err(fault(ErrorKind::NoFrame)),
        Some(local_base) => match local_slot(locals, local_base as int, name) {
            None => Err(fault_about(ErrorKind::UnknownLocal, name)),
            Some(id) => if segments.len() == 0 {
                Ok(cut(stack, base).push(Value::StackRef(id)))
            } else {
                match walked(stack, start(stack, id), segments, side == Side::LeftInsert(true)) {
                    Err(f) => Err(f),
                    Ok(target) => {
                        let grown = match target {
                            TargetValue::Slot(_) => stack,
                            TargetValue::NewEntry(p, key) => slot_put_entry(stack, p, key),
                        };
                        let place = match target {
                            TargetValue::Slot(p) => p,
                            TargetValue::NewEntry(p, _) => deeper(
                                p,
                                slot_at(stack, p)->Some_0->Object_0.len() as usize,
                            ),
                        };
                        if place.slot >= base {
                            Err(fault(ErrorKind::DanglingReference))
                        } else {
                            match side {
                                Side::Right => match slot_at(grown, place) {
                                    None => Err(fault(ErrorKind::DanglingReference)),
                                    Some(v) => match deep(v, grown, depth) {
                                        Err(k) => Err(fault(k)),
                                        Ok(c) => Ok(cut(grown, base).push(c)),
                                    },
                                },
                                Side::LeftInsert(_) => Ok(
                                    cut(grown, base).push(Value::RawRef(place)),
                                ),
                            }
                        }
                    },
                }
            },
        },
    }
}

/// Leaves on the value stack what the evaluation of an item leaves, as
/// `item_emitted` says. On a failure the stack may hold a new entry; its
/// height is as before.
pub fn emit_item(
    stack: &mut Vec<Variable>,
    locals: &Vec<(String, usize)>,
    frames: &Vec<(String, usize, usize)>,
    name: &String,
    segments: &Vec<Segment>,
    side: Side,
    base: usize,
    depth: usize,
) -> (r: Result<(), Error>)
    ensures
        match item_emitted(
            models(old(stack)@),
            local_models(locals@),
            frame_models(frames@),
            name@,
            segment_models(segments@),
            side,
            base as int,
            depth as nat,
        ) {
            Ok(after) => r is Ok && models(final(stack)@) == after,
            Err(f) => r matches Err(e) && e@ == f,
        },
        r is Ok && base <= old(stack).len() ==> final(stack).len() == base + 1,
        r is Ok && segments.len() > 0 ==> (match side {
            Side::Right => closed(final(stack)@.last()@),
            Side::LeftInsert(_) => final(stack)@.last() is RawRef,
        }),
        r is Err ==> final(stack).len() == old(stack).len(),
{
    if frames.len() == 0 {
        return Err(Error::new(ErrorKind::NoFrame));
    }
    let local_base = frames[frames.len() - 1].2;
    let id = match find_local(locals, local_base, name) {
        Some(id) => id,
        None => {
            return Err(Error::about(ErrorKind::UnknownLocal, name.as_str()));
        },
    };
    let ghost before = models(stack@);
    if segments.len() == 0 {
        stack.truncate(base);
        stack.push(Variable::StackRef(id));
        assert(models(stack@) =~= cut(before, base as int).push(Value::StackRef(id)));
        return Ok(());
    }
    let insert = match side {
        Side::LeftInsert(true) => true,
        _ => false,
    };
    let place = match walk(stack, id, segments, insert)? {
        Target::Slot(p) => p,
        Target::NewEntry(p, key) => {
            let mut p = p;
            let ghost object_place = p@;
            match insert_entry(stack, &p, key) {
                Some(rank) => {
                    p.path.push(rank);
                    assert(p@ == deeper(object_place, rank));
                    p
                },
                None => {
                    return Err(Error::new(ErrorKind::ExpectedContainer));
                },
            }
        },
    };
    if place.slot >= base {
        return Err(Error::new(ErrorKind::DanglingReference));
    }
    let ghost grown = models(stack@);
    match side {
        Side::Right => {
            let c = match read(stack, &place) {
                None => {
                    return Err(Error::new(ErrorKind::DanglingReference));
                },
                Some(v) => {
                    proof {
                        if deep(v@, models(stack@), depth as nat) is Ok {
                            deep_is_closed(v@, models(stack@), depth as nat);
                        }
                    }
                    deep_clone(v, stack, depth)?
                },
            };
            stack.truncate(base);
            stack.push(c);
            assert(models(stack@) =~= cut(grown, base as int).push(c@));
        },
        Side::LeftInsert(_) => {
            let ghost handle = Value::RawRef(place@);
            stack.truncate(base);
            stack.push(Variable::RawRef(place));
            assert(models(stack@) =~= cut(grown, base as int).push(handle));
        },
    }
    Ok(())
}

} // verus!
