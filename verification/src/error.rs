use vstd::prelude::*;

verus! {

/// What went wrong during an evaluation. Every failure is fatal to the run.
#[derive(Debug, Clone, Copy, PartialEq, Eq, Structural)]
pub enum ErrorKind {
    /// The evaluation budget ran out.
    OutOfBudget,
    /// A value was needed and the value stack was empty.
    EmptyStack,
    /// An expression that had to leave a value left none.
    ExpectedSomething,
    /// A loop or branch condition, or a boolean operand, was not a boolean.
    ExpectedBool,
    /// A number was needed.
    ExpectedNumber,
    /// A text was needed.
    ExpectedText,
    /// An array was needed.
    ExpectedArray,
    /// A text or a number was needed.
    ExpectedTextOrNumber,
    /// A path segment was applied to a value that is neither object nor array.
    ExpectedContainer,
    /// An object was addressed by something other than a text key.
    ExpectedKey,
    /// An array was addressed by something other than a number.
    ExpectedIndex,
    /// A computed path segment was neither a text nor a number.
    ExpectedKeyOrIndex,
    /// The target of an assignment is not an item.
    ExpectedItem,
    /// A declaring assignment was given a path instead of a bare name.
    DeclareThroughPath,
    /// The left side of an assignment did not yield a handle.
    ExpectedReference,
    /// No local binding of that name in the current frame.
    UnknownLocal,
    /// No function of that name, user-defined or built in.
    UnknownFunction,
    /// The object has no such key.
    MissingKey,
    /// The array has no such index.
    IndexOutOfRange,
    /// An object literal names a key twice.
    DuplicateKey,
    /// A call passes a number of arguments other than the callee declares.
    Arity,
    /// The operands of a binary operator or comparison have unsuitable types.
    InvalidOperands,
    /// The operator is not defined for operands of this type.
    InvalidOperator,
    /// The left operand is a text and the right one is not.
    ExpectedTextRight,
    /// A compound operator was applied to a return slot that is still empty.
    ReturnHasNoValue,
    /// A value of another type was assigned to a slot holding a number.
    AssignToNumber,
    /// A value of another type was assigned to a slot holding a boolean.
    AssignToBool,
    /// A value of another type was assigned to a slot holding a text.
    AssignToText,
    /// A value of another type was assigned to a slot holding an object.
    AssignToObject,
    /// A value of another type was assigned to a slot holding an array.
    AssignToArray,
    /// The assignment operator is not defined for values of this type.
    UnsupportedAssign,
    /// A `break` or a `continue` in the first or the step expression of a loop.
    UnexpectedJump,
    /// A `break` left the body of a function.
    BreakFromFunction,
    /// A `continue` left the body of a function.
    ContinueFromFunction,
    /// A function that declares a return value ended without assigning one.
    NoReturnValue,
    /// A function that declares no return value produced one.
    UnexpectedReturnValue,
    /// `main` declares parameters.
    MainHasArguments,
    /// Code ran outside of any function call.
    NoFrame,
    /// A stack reference or a handle points outside of the value stack.
    DanglingReference,
    /// A handle was found where a value was needed.
    RawReference,
    /// The value has no textual form.
    NotPrintable,
    /// More references follow one another than may be followed, as where
    /// they lead in a circle.
    TooDeep,
    /// `sleep` was asked to wait for a negative or undefined time.
    InvalidDuration,
    /// The host failed to read input.
    Io,
}

/// A failure together with the identifier, label or host message it is about.
#[derive(Debug, Clone)]
pub struct Error {
    pub kind: ErrorKind,
    /// The identifier, label or host message concerned; empty where there is none.
    pub detail: String,
}

/// The model of an `Error`.
pub struct Fault {
    pub kind: ErrorKind,
    /// The identifier, label or host message concerned; empty where there is none.
    pub detail: Seq<char>,
}

impl View for Error {
    type V = Fault;

    open spec fn view(&self) -> Fault {
        Fault { kind: self.kind, detail: self.detail@ }
    }
}

/// The failure of this kind that concerns no particular identifier.
pub open spec fn fault(kind: ErrorKind) -> Fault {
    Fault { kind, detail: Seq::empty() }
}

/// The failure of this kind that concerns the identifier, label or message `detail`.
pub open spec fn fault_about(kind: ErrorKind, detail: Seq<char>) -> Fault {
    Fault { kind, detail }
}

impl Error {
    /// A failure that concerns no particular identifier.
    pub fn new(kind: ErrorKind) -> (e: Error)
        ensures
            e@ == fault(kind),
    {
        Error { kind, detail: String::new() }
    }

    /// A failure that concerns the identifier, label or message `detail`.
    pub fn about(kind: ErrorKind, detail: &str) -> (e: Error)
        ensures
            e@ == fault_about(kind, detail@),
    {
        Error { kind, detail: String::from_str(detail) }
    }
}

} // verus!
