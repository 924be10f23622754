//! What an evaluated expression reports to the construct around it.

use vstd::prelude::*;

verus! {

/// The role in which an expression is evaluated.
#[derive(Debug, Clone, Copy, PartialEq, Eq, Structural)]
pub enum Side {
    /// As the target of an assignment; the flag says whether a key that the
    /// addressed object lacks is inserted.
    LeftInsert(bool),
    /// For its value.
    Right,
}

/// Whether an evaluated expression left a value on the value stack.
#[derive(Debug, Clone, Copy, PartialEq, Eq, Structural)]
pub enum Expect {
    Nothing,
    Something,
}

/// How the construct around an evaluated expression has to go on.
#[derive(Debug, Clone)]
pub enum Flow {
    /// Go on with the next expression.
    Continue,
    /// Leave the function.
    Return,
    /// Leave a loop: the innermost one, or the one that carries the label.
    Break(Option<String>),
    /// Start the next round of a loop: of the innermost one, or of the one
    /// that carries the label.
    ContinueLoop(Option<String>),
}

/// A label as a sequence of characters, or none.
pub open spec fn label_view(label: Option<String>) -> Option<Seq<char>> {
    match label {
        Some(l) => Some(l@),
        None => None,
    }
}

/// A flow with its label as a sequence of characters.
pub enum FlowValue {
    Continue,
    Return,
    Break(Option<Seq<char>>),
    ContinueLoop(Option<Seq<char>>),
}

impl View for Flow {
    type V = FlowValue;

    open spec fn view(&self) -> FlowValue {
        match self {
            Flow::Continue => FlowValue::Continue,
            Flow::Return => FlowValue::Return,
            Flow::Break(l) => FlowValue::Break(label_view(*l)),
            Flow::ContinueLoop(l) => FlowValue::ContinueLoop(label_view(*l)),
        }
    }
}

impl Expect {
    /// The number of values that the expression left on the value stack.
    pub open spec fn count(self) -> int {
        match self {
            Expect::Nothing => 0,
            Expect::Something => 1,
        }
    }
}

/// How a loop goes on after an evaluation of its body.
#[derive(Debug)]
pub enum Reaction {
    /// With its step expression and its next round.
    Next,
    /// It ends, and hands this flow to the construct around it.
    Leave(Flow),
}

/// The model of a `Reaction`.
pub enum ReactionValue {
    Next,
    Leave(FlowValue),
}

impl View for Reaction {
    type V = ReactionValue;

    open spec fn view(&self) -> ReactionValue {
        match self {
            Reaction::Next => ReactionValue::Next,
            Reaction::Leave(f) => ReactionValue::Leave(f@),
        }
    }
}

/// How a loop with the label `label` reacts to the flow of its body.
///
/// A return leaves the loop and the function. A break without a label, or
/// with the loop's own label, ends the loop; the construct around it goes on.
/// A continue without a label, or with the loop's own label, starts the next
/// round. A break or a continue with another label ends the loop and is
/// handed on as it is.
pub open spec fn reaction(label: Option<Seq<char>>, flow: FlowValue) -> ReactionValue {
    match flow {
        FlowValue::Continue => ReactionValue::Next,
        FlowValue::Return => ReactionValue::Leave(FlowValue::Return),
        FlowValue::Break(None) => ReactionValue::Leave(FlowValue::Continue),
        FlowValue::Break(Some(l)) => if label == Some(l) {
            ReactionValue::Leave(FlowValue::Continue)
        } else {
            ReactionValue::Leave(flow)
        },
        FlowValue::ContinueLoop(None) => ReactionValue::Next,
        FlowValue::ContinueLoop(Some(l)) => if label == Some(l) {
            ReactionValue::Next
        } else {
            ReactionValue::Leave(flow)
        },
    }
}

/// Whether the loop's label is `l`.
fn is_labelled(label: &Option<String>, l: &String) -> (r: bool)
    ensures
        r == (label_view(*label) == Some(l@)),
{
    match label {
        Some(own) => *own == *l,
        None => false,
    }
}

/// How a loop with the label `label` reacts to the flow of its body.
pub fn react(label: &Option<String>, flow: Flow) -> (r: Reaction)
    ensures
        r@ == reaction(label_view(*label), flow@),
{
    match flow {
        Flow::Continue => Reaction::Next,
        Flow::Return => Reaction::Leave(Flow::Return),
        Flow::Break(None) => Reaction::Leave(Flow::Continue),
        Flow::Break(Some(l)) => if is_labelled(label, &l) {
            Reaction::Leave(Flow::Continue)
        } else {
            Reaction::Leave(Flow::Break(Some(l)))
        },
        Flow::ContinueLoop(None) => Reaction::Next,
        Flow::ContinueLoop(Some(l)) => if is_labelled(label, &l) {
            Reaction::Next
        } else {
            Reaction::Leave(Flow::ContinueLoop(Some(l)))
        },
    }
}

/// Whether the flow is a break or a continue.
pub open spec fn is_jump(flow: FlowValue) -> bool {
    flow is Break || flow is ContinueLoop
}

/// The loop that takes a jump up: its position among the loops around the
/// jump, counted from the innermost, whose labels are `labels`. Each loop
/// reacts to what the loop inside it hands on; the first that does not hand
/// the jump on has taken it up.
pub open spec fn taken_up_by(labels: Seq<Option<Seq<char>>>, flow: FlowValue) -> Option<int>
    decreases labels.len(),
{
    if labels.len() == 0 {
        None
    } else {
        match reaction(labels[0], flow) {
            ReactionValue::Leave(handed_on) => if is_jump(handed_on) {
                match taken_up_by(labels.skip(1), handed_on) {
                    Some(i) => Some(i + 1),
                    None => None,
                }
            } else {
                Some(0)
            },
            ReactionValue::Next => Some(0),
        }
    }
}

/// A break or a continue with a label passes every loop without that label,
/// labelled or not, and is taken up by the nearest loop that carries it.
pub proof fn labelled_jump_stops_at_nearest(
    labels: Seq<Option<Seq<char>>>,
    flow: FlowValue,
    l: Seq<char>,
    i: int,
)
    requires
        flow == FlowValue::Break(Some(l)) || flow == FlowValue::ContinueLoop(Some(l)),
        0 <= i < labels.len(),
        labels[i] == Some(l),
        forall|j: int| 0 <= j < i ==> labels[j] != Some(l),
    ensures
        taken_up_by(labels, flow) == Some(i),
        forall|j: int|
            0 <= j < i ==> reaction(#[trigger] labels[j], flow) == ReactionValue::Leave(flow),
    decreases labels.len(),
{
    if i > 0 {
        assert(labels[0] != Some(l));
        labelled_jump_stops_at_nearest(labels.skip(1), flow, l, i - 1);
    }
}

/// A break or a continue with a label that none of the loops carries is
/// taken up by none of them.
pub proof fn unknown_label_escapes(labels: Seq<Option<Seq<char>>>, flow: FlowValue, l: Seq<char>)
    requires
        flow == FlowValue::Break(Some(l)) || flow == FlowValue::ContinueLoop(Some(l)),
        forall|j: int| 0 <= j < labels.len() ==> labels[j] != Some(l),
    ensures
        taken_up_by(labels, flow) is None,
    decreases labels.len(),
{
    if labels.len() > 0 {
        assert(labels[0] != Some(l));
        unknown_label_escapes(labels.skip(1), flow, l);
    }
}

/// A break or a continue without a label is taken up by the innermost loop.
pub proof fn plain_jump_stops_at_innermost(labels: Seq<Option<Seq<char>>>, flow: FlowValue)
    requires
        flow == FlowValue::Break(None) || flow == FlowValue::ContinueLoop(None),
        labels.len() > 0,
    ensures
        taken_up_by(labels, flow) == Some(0int),
{
}

/// How a call ends, once the body of the function is done and its frame is
/// gone: `produced` is what the body reported, `top` the value on top of the
/// stack, which for a function that declares a return value is its return
/// slot.
pub open spec fn call_outcome(declared: bool, produced: Expect, top: Option<
    crate::value::Value,
>) -> Result<Expect, crate::error::ErrorKind> {
    if declared {
        match top {
            None => Err(crate::error::ErrorKind::EmptyStack),
            Some(crate::value::Value::Return) => Err(crate::error::ErrorKind::NoReturnValue),
            Some(_) => Ok(Expect::Something),
        }
    } else {
        match produced {
            Expect::Something => Err(crate::error::ErrorKind::UnexpectedReturnValue),
            Expect::Nothing => Ok(Expect::Nothing),
        }
    }
}

} // verus!
