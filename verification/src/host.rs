//! What the evaluator asks of the world around it: arithmetic on numbers,
//! their textual form, input and output, and the passing of time.

use vstd::prelude::*;
use crate::ast::BinOp;

verus! {

/// A function of one number.
#[derive(Debug, Clone, Copy, PartialEq, Eq, Structural)]
pub enum Unary {
    Sqrt,
    Sin,
    Cos,
    Tan,
    Asin,
    Acos,
    Atan,
    Exp,
    Ln,
    Log2,
    Log10,
    /// To the nearest integer, halves away from zero.
    Round,
}

/// The world around an evaluation. Numbers cross this border by their bit
/// pattern. The evaluator relies on nothing about the answers: whatever it
/// guarantees holds for every host.
pub trait Host {
    /// `left op right` on numbers.
    fn arithmetic(&mut self, op: BinOp, left: u64, right: u64) -> u64;

    /// The function `f` of the number `x`.
    fn unary(&mut self, f: Unary, x: u64) -> u64;

    /// The shortest decimal form that reads back as `x`.
    fn number_text(&mut self, x: u64) -> String;

    /// The number that `text` denotes, if it denotes one.
    fn parse_number(&mut self, text: &str) -> Option<u64>;

    /// Writes `text` to the output.
    fn write(&mut self, text: &str);

    /// Flushes the output and reads one line of input, its line break
    /// included. An `Err` carries the message of the failure.
    fn read_line(&mut self) -> Result<String, String>;

    /// Waits for as many seconds as the number `x` says. `x` is a number and
    /// not negative.
    fn sleep(&mut self, x: u64);
}

/// One exchange with the world around an evaluation: what was asked, and
/// what was answered.
pub enum Exchange {
    /// `left op right` was asked for, and this number was the answer.
    Arithmetic(BinOp, u64, u64, u64),
    /// The function of a number was asked for, and this number was the answer.
    Unary(Unary, u64, u64),
    /// The text of a number was asked for, and this text was the answer.
    NumberText(u64, Seq<char>),
    /// The number that a text denotes was asked for, and this was the answer.
    ParseNumber(Seq<char>, Option<u64>),
    /// This text was written.
    Write(Seq<char>),
    /// A line was asked for, and this line, or this failure, was the answer.
    ReadLine(Result<Seq<char>, Seq<char>>),
    /// A wait of as many seconds as this number says was asked for.
    Sleep(u64),
    /// A random number was asked for, and this number was the answer.
    Random(u64),
}

/// A host together with the record of what it was asked and what it
/// answered. The evaluator talks to its host through a recorder only, so
/// that its contracts can say what it asked, and what it made of the
/// answers.
pub struct Recorder<H> {
    pub host: H,
    /// The exchanges so far, the first one first.
    pub log: Ghost<Seq<Exchange>>,
}

/// Whether `later` is `earlier`, with more exchanges after it at most.
#[verifier::opaque]
pub open spec fn extends(earlier: Seq<Exchange>, later: Seq<Exchange>) -> bool {
    &&& earlier.len() <= later.len()
    &&& forall|i: int| 0 <= i < earlier.len() ==> later[i] == earlier[i]
}

/// Whether the record has grown from `before` to `after`: `after` is
/// `before` or goes on from it, and so does every record that goes on from
/// `after`.
pub open spec fn grows(before: Seq<Exchange>, after: Seq<Exchange>) -> bool {
    &&& after == before || extends(before, after)
    &&& forall|longer: Seq<Exchange>| #[trigger] extends(after, longer) ==> extends(before, longer)
}

/// Whether the record has grown from `before` to `after` by the one
/// exchange `exchange`, which every record that goes on from `after` then
/// holds at that place.
pub open spec fn took(before: Seq<Exchange>, after: Seq<Exchange>, exchange: Exchange) -> bool {
    &&& after == before.push(exchange)
    &&& extends(before, after)
    &&& forall|longer: Seq<Exchange>| #[trigger]
        extends(after, longer) ==> extends(before, longer) && before.len() < longer.len()
            && longer[before.len() as int] == exchange
}

/// The exchange at the place `asked` of a record, if the record is that long.
pub open spec fn exchange_at(record: Seq<Exchange>, asked: nat) -> Option<Exchange> {
    if asked < record.len() {
        Some(record[asked as int])
    } else {
        None
    }
}

/// A record that has grown by one exchange has taken it.
pub proof fn pushed_took(before: Seq<Exchange>, exchange: Exchange)
    ensures
        took(before, before.push(exchange), exchange),
{
    reveal(extends);
    let after = before.push(exchange);
    assert forall|longer: Seq<Exchange>| #[trigger] extends(after, longer) implies extends(
        before,
        longer,
    ) && before.len() < longer.len() && longer[before.len() as int] == exchange by {
        assert(after[before.len() as int] == exchange);
        assert forall|i: int| 0 <= i < before.len() implies longer[i] == before[i] by {
            assert(after[i] == before[i]);
        }
    }
}

/// Every record goes on from itself.
pub proof fn extends_itself(record: Seq<Exchange>)
    ensures
        extends(record, record),
{
    reveal(extends);
}

/// A record that goes on from another and is no longer is the other: there
/// was no exchange in between.
pub proof fn extends_to_same_length(earlier: Seq<Exchange>, later: Seq<Exchange>)
    requires
        extends(earlier, later),
        later.len() == earlier.len(),
    ensures
        later =~= earlier,
{
    reveal(extends);
}

/// A record that goes on from another holds the exchanges of the other.
pub proof fn extends_holds(earlier: Seq<Exchange>, later: Seq<Exchange>, i: int)
    requires
        extends(earlier, later),
        0 <= i < earlier.len(),
    ensures
        i < later.len(),
        later[i] == earlier[i],
{
    reveal(extends);
}

/// The text of a line that was read, or the message of the failure to read it.
pub open spec fn line_model(line: Result<String, String>) -> Result<Seq<char>, Seq<char>> {
    match line {
        Ok(text) => Ok(text@),
        Err(message) => Err(message@),
    }
}

impl<H: Host> Recorder<H> {
    /// A recorder for `host`, with an empty record.
    pub fn new(host: H) -> (r: Recorder<H>)
        ensures
            r.host == host,
            r.log@ == Seq::<Exchange>::empty(),
    {
        Recorder { host, log: Ghost(Seq::empty()) }
    }

    /// Asks the host for `left op right`.
    pub fn arithmetic(&mut self, op: BinOp, left: u64, right: u64) -> (r: u64)
        ensures
            took(old(self).log@, final(self).log@, Exchange::Arithmetic(op, left, right, r)),
    {
        let r = self.host.arithmetic(op, left, right);
        proof {
            pushed_took(self.log@, Exchange::Arithmetic(op, left, right, r));
        }
        self.log = Ghost(self.log@.push(Exchange::Arithmetic(op, left, right, r)));
        r
    }

    /// Asks the host for the function `f` of the number `x`.
    pub fn unary(&mut self, f: Unary, x: u64) -> (r: u64)
        ensures
            took(old(self).log@, final(self).log@, Exchange::Unary(f, x, r)),
    {
        let r = self.host.unary(f, x);
        proof {
            pushed_took(self.log@, Exchange::Unary(f, x, r));
        }
        self.log = Ghost(self.log@.push(Exchange::Unary(f, x, r)));
        r
    }

    /// Asks the host for the text of the number `x`.
    pub fn number_text(&mut self, x: u64) -> (r: String)
        ensures
            took(old(self).log@, final(self).log@, Exchange::NumberText(x, r@)),
    {
        let r = self.host.number_text(x);
        proof {
            pushed_took(self.log@, Exchange::NumberText(x, r@));
        }
        self.log = Ghost(self.log@.push(Exchange::NumberText(x, r@)));
        r
    }

    /// Asks the host for the number that `text` denotes.
    pub fn parse_number(&mut self, text: &str) -> (r: Option<u64>)
        ensures
            took(old(self).log@, final(self).log@, Exchange::ParseNumber(text@, r)),
    {
        let r = self.host.parse_number(text);
        proof {
            pushed_took(self.log@, Exchange::ParseNumber(text@, r));
        }
        self.log = Ghost(self.log@.push(Exchange::ParseNumber(text@, r)));
        r
    }

    /// Has the host write `text`.
    pub fn put(&mut self, text: &str)
        ensures
            took(old(self).log@, final(self).log@, Exchange::Write(text@)),
    {
        self.host.write(text);
        proof {
            pushed_took(self.log@, Exchange::Write(text@));
        }
        self.log = Ghost(self.log@.push(Exchange::Write(text@)));
    }

    /// Asks the host for a line of input.
    pub fn read_line(&mut self) -> (r: Result<String, String>)
        ensures
            took(old(self).log@, final(self).log@, Exchange::ReadLine(line_model(r))),
    {
        let r = self.host.read_line();
        proof {
            pushed_took(self.log@, Exchange::ReadLine(line_model(r)));
        }
        self.log = Ghost(self.log@.push(Exchange::ReadLine(line_model(r))));
        r
    }

    /// Has the host wait for as many seconds as the number `x` says.
    pub fn sleep(&mut self, x: u64)
        ensures
            took(old(self).log@, final(self).log@, Exchange::Sleep(x)),
    {
        self.host.sleep(x);
        proof {
            pushed_took(self.log@, Exchange::Sleep(x));
        }
        self.log = Ghost(self.log@.push(Exchange::Sleep(x)));
    }

    /// Draws a random number from `rng`: one from 0 up to, but not
    /// including, 1.
    pub fn random(&mut self, rng: &mut rand::ThreadRng) -> (r: u64)
        ensures
            r < crate::number::ONE,
            took(old(self).log@, final(self).log@, Exchange::Random(r)),
            final(self).host == old(self).host,
    {
        let r = next_number(rng);
        proof {
            pushed_took(self.log@, Exchange::Random(r));
        }
        self.log = Ghost(self.log@.push(Exchange::Random(r)));
        r
    }
}

#[verifier::external_type_specification]
#[verifier::external_body]
pub struct ExThreadRng(rand::ThreadRng);

/// `rand::thread_rng`, which hands out the generator of the current thread.
/// Nothing is known of what the generator will yield.
#[verifier::external_body]
pub(crate) fn thread_rng() -> (rng: rand::ThreadRng) {
    rand::thread_rng()
}

/// `rand::Rng::next_f64`, which is documented to return a number in the
/// half-open interval from 0 to 1. The bit patterns of those numbers are the
/// ones below that of 1.
#[verifier::external_body]
pub(crate) fn next_number(rng: &mut rand::ThreadRng) -> (bits: u64)
    ensures
        bits < crate::number::ONE,
{
    rand::Rng::next_f64(rng).to_bits()
}

} // verus!
