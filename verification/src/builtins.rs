//! The procedures that the language provides by itself.

use vstd::prelude::*;
use crate::ast::Function;
use crate::deep::deep_clone;
use crate::error::{Error, ErrorKind};
use crate::host::{Exchange, Host, Recorder, Unary, extends, grows};
use crate::lookup::{frame_models, local_models};
use crate::number::{ONE, SIGN_BIT, is_nan, magnitude, no_number, number_from_count};
use crate::print::{Piece, PieceValue, emit, piece_models, pieces};
use crate::semantics::{
    Answered, Sem, described, dump_form, dumped_locals, dumped_values, sem_apply, sem_read_number,
    trace_form,
};
use crate::text::{is, trim, trim_end};
use crate::value::{Value, Variable, array_model, models, resolve};

verus! {

/// A built-in procedure.
#[derive(Debug, Clone, Copy, PartialEq, Eq, Structural)]
pub enum Builtin {
    /// `clone(v)`: a deep copy.
    Clone,
    /// `print(v)`: writes the canonical form of a value.
    Print,
    /// `println(v)`: the same, and a line break.
    Println,
    /// `sqrt`, `sin`, `cos`, `tan`, `asin`, `acos`, `atan`, `exp`, `ln`,
    /// `log2`, `log10` and `round`, each of one number.
    Math(Unary),
    /// `sleep(seconds)`
    Sleep,
    /// `random()`: a number from 0 up to, but not including, 1.
    Random,
    /// `len(array)`
    Len,
    /// `read_line()`
    ReadLine,
    /// `read_number(message)`: reads lines until one is a number, and writes
    /// the message after each that is none.
    ReadNumber,
    /// `trim_right(text)`
    TrimRight,
    /// `to_string(v)`: a text as it is, a number in its shortest form.
    ToString,
    /// `debug()`: writes the value stack and the local bindings.
    Debug,
    /// `backtrace()`: writes the call stack.
    Backtrace,
}

impl Builtin {
    /// The number of arguments.
    pub open spec fn arity(self) -> nat {
        match self {
            Builtin::Random | Builtin::ReadLine | Builtin::Debug | Builtin::Backtrace => 0,
            _ => 1,
        }
    }

    /// Whether the procedure yields a value.
    pub open spec fn has_value(self) -> bool {
        match self {
            Builtin::Print | Builtin::Println | Builtin::Sleep | Builtin::Debug
            | Builtin::Backtrace => false,
            _ => true,
        }
    }

    /// The number of arguments.
    pub fn argument_count(self) -> (n: usize)
        ensures
            n == self.arity(),
    {
        match self {
            Builtin::Random | Builtin::ReadLine | Builtin::Debug | Builtin::Backtrace => 0,
            _ => 1,
        }
    }

    /// Whether the procedure yields a value.
    pub fn yields(self) -> (r: bool)
        ensures
            r == self.has_value(),
    {
        match self {
            Builtin::Print | Builtin::Println | Builtin::Sleep | Builtin::Debug
            | Builtin::Backtrace => false,
            _ => true,
        }
    }
}

/// The built-in procedure of that name, if there is one.
pub open spec fn builtin_named(name: Seq<char>) -> Option<Builtin> {
    if name == "clone"@ {
        Some(Builtin::Clone)
    } else if name == "println"@ {
        Some(Builtin::Println)
    } else if name == "print"@ {
        Some(Builtin::Print)
    } else if name == "sqrt"@ {
        Some(Builtin::Math(Unary::Sqrt))
    } else if name == "sin"@ {
        Some(Builtin::Math(Unary::Sin))
    } else if name == "asin"@ {
        Some(Builtin::Math(Unary::Asin))
    } else if name == "cos"@ {
        Some(Builtin::Math(Unary::Cos))
    } else if name == "acos"@ {
        Some(Builtin::Math(Unary::Acos))
    } else if name == "tan"@ {
        Some(Builtin::Math(Unary::Tan))
    } else if name == "atan"@ {
        Some(Builtin::Math(Unary::Atan))
    } else if name == "exp"@ {
        Some(Builtin::Math(Unary::Exp))
    } else if name == "ln"@ {
        Some(Builtin::Math(Unary::Ln))
    } else if name == "log2"@ {
        Some(Builtin::Math(Unary::Log2))
    } else if name == "log10"@ {
        Some(Builtin::Math(Unary::Log10))
    } else if name == "round"@ {
        Some(Builtin::Math(Unary::Round))
    } else if name == "sleep"@ {
        Some(Builtin::Sleep)
    } else if name == "random"@ {
        Some(Builtin::Random)
    } else if name == "len"@ {
        Some(Builtin::Len)
    } else if name == "read_line"@ {
        Some(Builtin::ReadLine)
    } else if name == "read_number"@ {
        Some(Builtin::ReadNumber)
    } else if name == "trim_right"@ {
        Some(Builtin::TrimRight)
    } else if name == "to_string"@ {
        Some(Builtin::ToString)
    } else if name == "debug"@ {
        Some(Builtin::Debug)
    } else if name == "backtrace"@ {
        Some(Builtin::Backtrace)
    } else {
        None
    }
}

/// Looks a built-in procedure up by its name.
pub fn builtin(name: &String) -> (r: Option<Builtin>)
    ensures
        r == builtin_named(name@),
{
    if is(name, "clone") {
        Some(Builtin::Clone)
    } else if is(name, "println") {
        Some(Builtin::Println)
    } else if is(name, "print") {
        Some(Builtin::Print)
    } else if is(name, "sqrt") {
        Some(Builtin::Math(Unary::Sqrt))
    } else if is(name, "sin") {
        Some(Builtin::Math(Unary::Sin))
    } else if is(name, "asin") {
        Some(Builtin::Math(Unary::Asin))
    } else if is(name, "cos") {
        Some(Builtin::Math(Unary::Cos))
    } else if is(name, "acos") {
        Some(Builtin::Math(Unary::Acos))
    } else if is(name, "tan") {
        Some(Builtin::Math(Unary::Tan))
    } else if is(name, "atan") {
        Some(Builtin::Math(Unary::Atan))
    } else if is(name, "exp") {
        Some(Builtin::Math(Unary::Exp))
    } else if is(name, "ln") {
        Some(Builtin::Math(Unary::Ln))
    } else if is(name, "log2") {
        Some(Builtin::Math(Unary::Log2))
    } else if is(name, "log10") {
        Some(Builtin::Math(Unary::Log10))
    } else if is(name, "round") {
        Some(Builtin::Math(Unary::Round))
    } else if is(name, "sleep") {
        Some(Builtin::Sleep)
    } else if is(name, "random") {
        Some(Builtin::Random)
    } else if is(name, "len") {
        Some(Builtin::Len)
    } else if is(name, "read_line") {
        Some(Builtin::ReadLine)
    } else if is(name, "read_number") {
        Some(Builtin::ReadNumber)
    } else if is(name, "trim_right") {
        Some(Builtin::TrimRight)
    } else if is(name, "to_string") {
        Some(Builtin::ToString)
    } else if is(name, "debug") {
        Some(Builtin::Debug)
    } else if is(name, "backtrace") {
        Some(Builtin::Backtrace)
    } else {
        None
    }
}

/// The position of the function of that name that was registered last, if
/// one of that name was registered.
pub open spec fn function_index(functions: Seq<&Function>, name: Seq<char>) -> Option<int>
    decreases functions.len(),
{
    if functions.len() == 0 {
        None
    } else if functions.last().name@ == name {
        Some(functions.len() - 1)
    } else {
        function_index(functions.drop_last(), name)
    }
}

/// Looks a user-defined function up by its name. Of several with one name
/// the one registered last counts.
pub fn find_function(functions: &Vec<&Function>, name: &String) -> (r: Option<usize>)
    ensures
        match r {
            Some(i) => function_index(functions@, name@) == Some(i as int) && i < functions.len(),
            None => function_index(functions@, name@) is None,
        },
{
    let mut i = functions.len();
    assert(functions@.take(i as int) =~= functions@);
    while i > 0
        invariant
            i <= functions.len(),
            function_index(functions@, name@) == function_index(functions@.take(i as int), name@),
        decreases i,
    {
        assert(functions@.take(i as int).drop_last() =~= functions@.take(i - 1));
        if functions[i - 1].name == *name {
            return Some(i - 1);
        }
        i -= 1;
    }
    None
}

/// Whether a call of that name yields a value: as the user-defined function
/// of that name declares, else as the built-in procedure of that name does.
/// `None` where nothing has that name.
pub open spec fn returns_of(functions: Seq<&Function>, name: Seq<char>) -> Option<bool> {
    match function_index(functions, name) {
        Some(i) => Some(functions[i].returns),
        None => match builtin_named(name) {
            Some(b) => Some(b.has_value()),
            None => None,
        },
    }
}

/// The number of arguments that a call of that name takes: as many as the
/// user-defined function of that name declares, else as many as the built-in
/// procedure of that name takes. `None` where nothing has that name.
pub open spec fn arity_of(functions: Seq<&Function>, name: Seq<char>) -> Option<nat> {
    match function_index(functions, name) {
        Some(i) => Some(functions[i].args.len() as nat),
        None => match builtin_named(name) {
            Some(b) => Some(b.arity()),
            None => None,
        },
    }
}

/// The model of a value, if there is one.
pub open spec fn value_model(v: Option<Variable>) -> Option<Value> {
    match v {
        Some(x) => Some(x@),
        None => None,
    }
}

/// Whether a number is a time to wait for: a number that is not below zero.
pub open spec fn is_duration(n: u64) -> bool {
    !is_nan(n) && (n < SIGN_BIT || magnitude(n) == 0)
}

/// What a built-in procedure has come to: the value it yields, if it
/// yields one, with the budget that is left and the place in the record
/// that is reached; or its failure.
pub open spec fn answered(
    r: Result<Option<Variable>, Error>,
    budget: usize,
    record: Seq<Exchange>,
) -> Sem<Answered> {
    match r {
        Ok(v) => Sem::Done((value_model(v), budget as nat, record.len())),
        Err(e) => Sem::Fails(e@, record.len()),
    }
}

fn push_text(out: &mut Vec<Piece>, text: &str)
    ensures
        piece_models(final(out)@) == piece_models(old(out)@) + seq![PieceValue::Text(text@)],
{
    let ghost before = out@;
    out.push(Piece::Text(String::from_str(text)));
    assert(piece_models(out@) =~= piece_models(before) + seq![PieceValue::Text(text@)]);
}

/// What `debug` writes, as `dump_form` says.
pub fn dump(stack: &Vec<Variable>, locals: &Vec<(String, usize)>) -> (out: Vec<Piece>)
    ensures
        piece_models(out@) == dump_form(models(stack@), local_models(locals@)),
{
    let mut out: Vec<Piece> = Vec::new();
    assert(piece_models(out@) =~= Seq::empty());
    push_text(&mut out, "Stack\n");
    let ghost head = piece_models(out@);
    assert(head =~= seq![PieceValue::Text("Stack\n"@)]);
    let mut i: usize = 0;
    assert(models(stack@).take(0) =~= Seq::empty());
    assert(head + dumped_values(Seq::empty()) =~= head);
    while i < stack.len()
        invariant
            i <= stack.len(),
            piece_models(out@) == head + dumped_values(models(stack@).take(i as int)),
        decreases stack.len() - i,
    {
        let ghost front = dumped_values(models(stack@).take(i as int));
        assert(models(stack@).take(i + 1).drop_last() =~= models(stack@).take(i as int));
        assert(models(stack@).take(i + 1).last() == stack[i as int]@);
        push_text(&mut out, "  ");
        match pieces(&stack[i]) {
            Ok(mut form) => {
                let ghost before = piece_models(out@);
                let ghost shown = piece_models(form@);
                out.append(&mut form);
                assert(piece_models(out@) =~= before + shown);
            },
            Err(_) => {
                push_text(&mut out, "...");
            },
        }
        push_text(&mut out, "\n");
        assert(piece_models(out@) =~= head + (front + seq![PieceValue::Text("  "@)] + described(
            stack[i as int]@,
        ) + seq![PieceValue::Text("\n"@)]));
        i += 1;
    }
    assert(models(stack@).take(i as int) =~= models(stack@));
    push_text(&mut out, "Locals\n");
    let ghost body = piece_models(out@);
    let mut i: usize = 0;
    assert(local_models(locals@).take(0) =~= Seq::empty());
    assert(body + dumped_locals(Seq::empty()) =~= body);
    while i < locals.len()
        invariant
            i <= locals.len(),
            piece_models(out@) == body + dumped_locals(local_models(locals@).take(i as int)),
        decreases locals.len() - i,
    {
        let ghost front = dumped_locals(local_models(locals@).take(i as int));
        assert(local_models(locals@).take(i + 1).drop_last() =~= local_models(locals@).take(
            i as int,
        ));
        assert(local_models(locals@).take(i + 1).last() == (
            locals[i as int].0@,
            locals[i as int].1,
        ));
        push_text(&mut out, "  ");
        push_text(&mut out, locals[i].0.as_str());
        push_text(&mut out, ": ");
        let ghost before = out@;
        let slot = number_from_count(locals[i].1 as u64);
        out.push(Piece::Number(slot));
        assert(piece_models(out@) =~= piece_models(before) + seq![PieceValue::Number(slot)]);
        push_text(&mut out, "\n");
        assert(piece_models(out@) =~= body + (front + seq![
            PieceValue::Text("  "@),
            PieceValue::Text(locals[i as int].0@),
            PieceValue::Text(": "@),
            PieceValue::Number(slot),
            PieceValue::Text("\n"@),
        ]));
        i += 1;
    }
    assert(local_models(locals@).take(i as int) =~= local_models(locals@));
    assert(piece_models(out@) =~= dump_form(models(stack@), local_models(locals@)));
    out
}

/// What `backtrace` writes, as `trace_form` says.
pub fn trace(frames: &Vec<(String, usize, usize)>) -> (out: Vec<Piece>)
    ensures
        piece_models(out@) == trace_form(frame_models(frames@)),
{
    let mut out: Vec<Piece> = Vec::new();
    assert(piece_models(out@) =~= Seq::empty());
    let mut i: usize = 0;
    assert(frame_models(frames@).take(0) =~= Seq::empty());
    while i < frames.len()
        invariant
            i <= frames.len(),
            piece_models(out@) == trace_form(frame_models(frames@).take(i as int)),
        decreases frames.len() - i,
    {
        let ghost front = trace_form(frame_models(frames@).take(i as int));
        assert(frame_models(frames@).take(i + 1).drop_last() =~= frame_models(frames@).take(
            i as int,
        ));
        assert(frame_models(frames@).take(i + 1).last().0 == frames[i as int].0@);
        push_text(&mut out, frames[i].0.as_str());
        push_text(&mut out, "\n");
        assert(piece_models(out@) =~= front + seq![
            PieceValue::Text(frames[i as int].0@),
            PieceValue::Text("\n"@),
        ]);
        i += 1;
    }
    assert(frame_models(frames@).take(i as int) =~= frame_models(frames@));
    out
}

/// Reads lines until one of them is a number, as `sem_read_number` says.
fn read_number<H: Host>(host: &mut Recorder<H>, message: &str, budget: &mut usize) -> (r: Result<
    Option<Variable>,
    Error,
>)
    ensures
        *final(budget) <= *old(budget),
        r matches Ok(v) ==> v is Some,
        grows(old(host).log@, final(host).log@),
        forall|longer: Seq<Exchange>| #[trigger]
            extends(final(host).log@, longer) ==> sem_read_number(
                message@,
                *old(budget) as nat,
                old(host).log@.len(),
                longer,
            ) == answered(r, *final(budget), final(host).log@),
{
    loop
        invariant
            *budget <= *old(budget),
            grows(old(host).log@, host.log@),
            forall|longer: Seq<Exchange>| #[trigger]
                extends(host.log@, longer) ==> sem_read_number(
                    message@,
                    *old(budget) as nat,
                    old(host).log@.len(),
                    longer,
                ) == sem_read_number(message@, *budget as nat, host.log@.len(), longer),
        decreases *budget,
    {
        if *budget == 0 {
            return Err(Error::new(ErrorKind::OutOfBudget));
        }
        *budget = *budget - 1;
        let line = match host.read_line() {
            Ok(line) => line,
            Err(message) => {
                return Err(Error::about(ErrorKind::Io, message.as_str()));
            },
        };
        let text = trim(line.as_str());
        match host.parse_number(text.as_str()) {
            Some(n) => {
                return Ok(Some(Variable::Number(n)));
            },
            None => {
                host.put(message);
                host.put("\n");
            },
        }
    }
}

/// Carries a built-in procedure out, as `sem_apply` says.
///
/// `arg` is the argument, taken from the stack, if the procedure takes one.
/// The result is the value that the procedure yields, if it yields one.
/// What `random` yields is at least 0 and below 1.
pub fn apply<H: Host>(
    host: &mut Recorder<H>,
    rng: &mut rand::ThreadRng,
    stack: &Vec<Variable>,
    locals: &Vec<(String, usize)>,
    frames: &Vec<(String, usize, usize)>,
    budget: &mut usize,
    b: Builtin,
    arg: Option<Variable>,
) -> (r: Result<Option<Variable>, Error>)
    ensures
        *final(budget) <= *old(budget),
        grows(old(host).log@, final(host).log@),
        forall|longer: Seq<Exchange>| #[trigger]
            extends(final(host).log@, longer) ==> sem_apply(
                b,
                value_model(arg),
                models(stack@),
                local_models(locals@),
                frame_models(frames@),
                *old(budget) as nat,
                old(host).log@.len(),
                longer,
            ) == answered(r, *final(budget), final(host).log@),
        r matches Ok(v) ==> v.is_some() == b.has_value(),
        b == Builtin::Random ==> (r matches Ok(Some(Variable::Number(n))) && n < ONE),
{
    match b {
        Builtin::Random => {
            return Ok(Some(Variable::Number(host.random(rng))));
        },
        Builtin::ReadLine => {
            return match host.read_line() {
                Ok(line) => Ok(Some(Variable::Text(line))),
                Err(message) => Err(Error::about(ErrorKind::Io, message.as_str())),
            };
        },
        Builtin::Debug => {
            let form = dump(stack, locals);
            emit(host, &form);
            return Ok(None);
        },
        Builtin::Backtrace => {
            let form = trace(frames);
            emit(host, &form);
            return Ok(None);
        },
        _ => {},
    }
    let v = match arg {
        Some(v) => v,
        None => {
            return Err(Error::new(ErrorKind::EmptyStack));
        },
    };
    match b {
        Builtin::Clone => {
            return Ok(Some(deep_clone(&v, stack, stack.len())?));
        },
        Builtin::Print | Builtin::Println => {
            let c = deep_clone(&v, stack, stack.len())?;
            let mut form = pieces(&c)?;
            if let Builtin::Println = b {
                let ghost before = form@;
                form.push(Piece::Text(String::from_str("\n")));
                assert(piece_models(form@) =~= piece_models(before).push(
                    PieceValue::Text("\n"@),
                ));
            }
            emit(host, &form);
            return Ok(None);
        },
        _ => {},
    }
    let w = match resolve(stack, &v) {
        Some(w) => w,
        None => {
            return Err(Error::new(ErrorKind::DanglingReference));
        },
    };
    match b {
        Builtin::Math(f) => match w {
            Variable::Number(x) => Ok(Some(Variable::Number(host.unary(f, *x)))),
            _ => Err(Error::new(ErrorKind::ExpectedNumber)),
        },
        Builtin::Sleep => match w {
            Variable::Number(x) => {
                if no_number(*x) || (*x > SIGN_BIT) {
                    Err(Error::new(ErrorKind::InvalidDuration))
                } else {
                    host.sleep(*x);
                    Ok(None)
                }
            },
            _ => Err(Error::new(ErrorKind::ExpectedNumber)),
        },
        Builtin::Len => match w {
            Variable::Array(a) => {
                proof {
                    array_model(*w);
                }
                Ok(Some(Variable::Number(number_from_count(a.len() as u64))))
            },
            _ => Err(Error::new(ErrorKind::ExpectedArray)),
        },
        Builtin::ReadNumber => match w {
            Variable::Text(message) => read_number(host, message.as_str(), budget),
            _ => Err(Error::new(ErrorKind::ExpectedText)),
        },
        Builtin::TrimRight => match w {
            Variable::Text(t) => Ok(Some(Variable::Text(trim_end(t.as_str())))),
            _ => Err(Error::new(ErrorKind::ExpectedText)),
        },
        Builtin::ToString => match w {
            Variable::Text(t) => Ok(Some(Variable::Text(t.clone()))),
            Variable::Number(x) => Ok(Some(Variable::Text(host.number_text(*x)))),
            _ => Err(Error::new(ErrorKind::ExpectedTextOrNumber)),
        },
        _ => Ok(None),
    }
}

} // verus!
