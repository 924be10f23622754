//! Runtime values and their mathematical model.

use vstd::prelude::*;

verus! {

/// A slot inside the value stack: the stack slot `slot`, then for each entry
/// of `path` the position to descend to in the container reached so far (the
/// index of an array element, or the rank of an object's entry).
#[derive(Debug, PartialEq)]
pub struct Place {
    pub slot: usize,
    pub path: Vec<usize>,
}

/// A runtime value.
#[derive(Debug, PartialEq)]
pub enum Variable {
    /// The return slot of a function, as long as nothing is assigned to it.
    Return,
    Bool(bool),
    /// An IEEE-754 binary64 number, held by its bit pattern.
    Number(u64),
    Text(String),
    /// Entries in the order of their insertion. In an object that an
    /// evaluation makes no key occurs twice.
    Object(Vec<(String, Variable)>),
    Array(Vec<Variable>),
    /// The value stack's slot of that index. Never visible to a program.
    StackRef(usize),
    /// The target of an assignment under way. Never visible to a program.
    RawRef(Place),
}

/// The model of a `Place`.
pub struct PlaceValue {
    pub slot: usize,
    pub path: Seq<usize>,
}

/// The model of a `Variable`.
pub enum Value {
    Return,
    Bool(bool),
    Number(u64),
    Text(Seq<char>),
    Object(Seq<(Seq<char>, Value)>),
    Array(Seq<Value>),
    StackRef(usize),
    RawRef(PlaceValue),
}

impl View for Place {
    type V = PlaceValue;

    open spec fn view(&self) -> PlaceValue {
        PlaceValue { slot: self.slot, path: self.path@ }
    }
}

/// The model of a value.
pub open spec fn value_of(v: Variable) -> Value
    decreases v,
{
    match v {
        Variable::Return => Value::Return,
        Variable::Bool(b) => Value::Bool(b),
        Variable::Number(n) => Value::Number(n),
        Variable::Text(t) => Value::Text(t@),
        Variable::Object(o) => Value::Object(
            Seq::new(
                o.len() as nat,
                |i: int|
                    if 0 <= i < o.len() {
                        (o[i].0@, value_of(o[i].1))
                    } else {
                        (Seq::empty(), Value::Return)
                    },
            ),
        ),
        Variable::Array(a) => Value::Array(
            Seq::new(
                a.len() as nat,
                |i: int|
                    if 0 <= i < a.len() {
                        value_of(a[i])
                    } else {
                        Value::Return
                    },
            ),
        ),
        Variable::StackRef(i) => Value::StackRef(i),
        Variable::RawRef(p) => Value::RawRef(p@),
    }
}

impl View for Variable {
    type V = Value;

    open spec fn view(&self) -> Value {
        value_of(*self)
    }
}

/// The models of a sequence of values, such as the value stack.
pub open spec fn models(values: Seq<Variable>) -> Seq<Value> {
    Seq::new(values.len(), |i: int| values[i]@)
}

/// The models of an object's entries.
pub open spec fn entry_models(entries: Seq<(String, Variable)>) -> Seq<(Seq<char>, Value)> {
    Seq::new(entries.len(), |i: int| (entries[i].0@, entries[i].1@))
}

/// An array's model is made of the models of its elements.
pub proof fn array_model(v: Variable)
    requires
        v is Array,
    ensures
        v@ == Value::Array(models(v->Array_0@)),
{
    match v {
        Variable::Array(a) => {
            assert(v@->Array_0 =~= models(a@));
        },
        _ => {},
    }
}

/// An object's model is made of its keys and the models of their values.
pub proof fn object_model(v: Variable)
    requires
        v is Object,
    ensures
        v@ == Value::Object(entry_models(v->Object_0@)),
{
    match v {
        Variable::Object(o) => {
            assert(v@->Object_0 =~= entry_models(o@));
        },
        _ => {},
    }
}

impl Place {
    /// An independent copy.
    pub fn copy(&self) -> (r: Place)
        ensures
            r@ == self@,
    {
        let mut path: Vec<usize> = Vec::new();
        let mut i: usize = 0;
        while i < self.path.len()
            invariant
                i <= self.path.len(),
                path@ == self.path@.take(i as int),
            decreases self.path.len() - i,
        {
            path.push(self.path[i]);
            assert(path@ =~= self.path@.take(i + 1));
            i += 1;
        }
        assert(path@ =~= self.path@);
        Place { slot: self.slot, path }
    }
}

impl Variable {
    /// A copy that shares nothing with `self`. References stay references:
    /// they are not followed.
    pub fn copy(&self) -> (r: Variable)
        ensures
            r@ == self@,
        decreases *self,
    {
        match self {
            Variable::Return => Variable::Return,
            Variable::Bool(b) => Variable::Bool(*b),
            Variable::Number(n) => Variable::Number(*n),
            Variable::Text(t) => Variable::Text(t.clone()),
            Variable::Object(o) => {
                let mut res: Vec<(String, Variable)> = Vec::new();
                let mut i: usize = 0;
                while i < o.len()
                    invariant
                        i <= o.len(),
                        res.len() == i,
                        forall|j: int| 0 <= j < i ==> res[j].0@ == o[j].0@ && res[j].1@ == o[j].1@,
                        decreases_to!(*self => *o),
                    decreases o.len() - i,
                {
                    let c = o[i].1.copy();
                    res.push((o[i].0.clone(), c));
                    i += 1;
                }
                let r = Variable::Object(res);
                assert(r@->Object_0 =~= self@->Object_0);
                r
            },
            Variable::Array(a) => {
                let mut res: Vec<Variable> = Vec::new();
                let mut i: usize = 0;
                while i < a.len()
                    invariant
                        i <= a.len(),
                        res.len() == i,
                        forall|j: int| 0 <= j < i ==> res[j]@ == a[j]@,
                        decreases_to!(*self => *a),
                    decreases a.len() - i,
                {
                    let c = a[i].copy();
                    res.push(c);
                    i += 1;
                }
                let r = Variable::Array(res);
                assert(r@->Array_0 =~= self@->Array_0);
                r
            },
            Variable::StackRef(i) => Variable::StackRef(*i),
            Variable::RawRef(p) => Variable::RawRef(p.copy()),
        }
    }
}

/// The sequence cut back to the length `n`; the sequence itself where it
/// is no longer than that.
pub open spec fn cut<A>(s: Seq<A>, n: int) -> Seq<A> {
    if 0 <= n <= s.len() {
        s.take(n)
    } else {
        s
    }
}

/// The value that `v` stands for: the stack's slot where `v` is a reference
/// to one, else `v` itself. `None` where the reference points outside of the
/// stack.
pub open spec fn resolved(stack: Seq<Value>, v: Value) -> Option<Value> {
    match v {
        Value::StackRef(i) => if i < stack.len() {
            Some(stack[i as int])
        } else {
            None
        },
        _ => Some(v),
    }
}

/// Follows `v` one step where it is a reference into the stack.
pub fn resolve<'a>(stack: &'a Vec<Variable>, v: &'a Variable) -> (r: Option<&'a Variable>)
    ensures
        match r {
            Some(w) => resolved(models(stack@), v@) == Some(w@),
            None => resolved(models(stack@), v@) is None,
        },
        r matches Some(w) ==> (match *v {
            Variable::StackRef(i) => i < stack.len() && *w == stack[i as int],
            _ => *w == *v,
        }),
{
    match v {
        Variable::StackRef(i) => {
            if *i < stack.len() {
                Some(&stack[*i])
            } else {
                None
            }
        },
        _ => Some(v),
    }
}

} // verus!
