//! Operations on texts that the standard library provides.

use vstd::prelude::*;
use crate::ast::CompareOp;

verus! {

/// Whether `a` comes before `b` in the order of texts: at the first position
/// where the two differ the character of `a` has the lower code point, or `a`
/// ends there and `b` goes on.
pub open spec fn text_lt(a: Seq<char>, b: Seq<char>) -> bool
    decreases a.len(),
{
    if b.len() == 0 {
        false
    } else if a.len() == 0 {
        true
    } else if a[0] != b[0] {
        (a[0] as u32) < (b[0] as u32)
    } else {
        text_lt(a.skip(1), b.skip(1))
    }
}

/// The outcome of comparing the text `a` with the text `b`.
pub open spec fn text_compared(op: CompareOp, a: Seq<char>, b: Seq<char>) -> bool {
    match op {
        CompareOp::Less => text_lt(a, b),
        CompareOp::LessOrEqual => text_lt(a, b) || a == b,
        CompareOp::Greater => text_lt(b, a),
        CompareOp::GreaterOrEqual => text_lt(b, a) || a == b,
        CompareOp::Equal => a == b,
        CompareOp::NotEqual => a != b,
    }
}

/// Whether the character is white space: one of the code points with the
/// Unicode property `White_Space`.
pub open spec fn is_space(c: char) -> bool {
    let u = c as u32;
    (0x09 <= u <= 0x0D) || u == 0x20 || u == 0x85 || u == 0xA0 || u == 0x1680 || (0x2000 <= u
        <= 0x200A) || u == 0x2028 || u == 0x2029 || u == 0x202F || u == 0x205F || u == 0x3000
}

/// The text without the white space at its end.
pub open spec fn trimmed_right(s: Seq<char>) -> Seq<char>
    decreases s.len(),
{
    if s.len() > 0 && is_space(s.last()) {
        trimmed_right(s.drop_last())
    } else {
        s
    }
}

/// The text without the white space at its start.
pub open spec fn trimmed_left(s: Seq<char>) -> Seq<char>
    decreases s.len(),
{
    if s.len() > 0 && is_space(s[0]) {
        trimmed_left(s.skip(1))
    } else {
        s
    }
}

/// `str`'s `<`, which the standard library documents to order strings
/// lexicographically by their bytes. In UTF-8 that is the order of the code
/// points, which `text_lt` states.
#[verifier::external_body]
pub(crate) fn before(a: &str, b: &str) -> (r: bool)
    ensures
        r == text_lt(a@, b@),
{
    a < b
}

/// `str::trim_end`, which returns the string without its trailing white
/// space, white space being the characters of the Unicode property
/// `White_Space`.
#[verifier::external_body]
pub(crate) fn trim_end(s: &str) -> (r: String)
    ensures
        r@ == trimmed_right(s@),
{
    s.trim_end().to_string()
}

/// `str::trim`, which returns the string without its leading and trailing
/// white space, white space being the characters of the Unicode property
/// `White_Space`.
#[verifier::external_body]
pub(crate) fn trim(s: &str) -> (r: String)
    ensures
        r@ == trimmed_left(trimmed_right(s@)),
{
    s.trim().to_string()
}

/// Compares the text `a` with the text `b`.
pub fn compare_texts(op: CompareOp, a: &String, b: &String) -> (r: bool)
    ensures
        r == text_compared(op, a@, b@),
{
    match op {
        CompareOp::Less => before(a.as_str(), b.as_str()),
        CompareOp::LessOrEqual => before(a.as_str(), b.as_str()) || *a == *b,
        CompareOp::Greater => before(b.as_str(), a.as_str()),
        CompareOp::GreaterOrEqual => before(b.as_str(), a.as_str()) || *a == *b,
        CompareOp::Equal => *a == *b,
        CompareOp::NotEqual => !(*a == *b),
    }
}

/// The text of a digit.
pub open spec fn digit(d: nat) -> Seq<char> {
    if d == 0 {
        "0"@
    } else if d == 1 {
        "1"@
    } else if d == 2 {
        "2"@
    } else if d == 3 {
        "3"@
    } else if d == 4 {
        "4"@
    } else if d == 5 {
        "5"@
    } else if d == 6 {
        "6"@
    } else if d == 7 {
        "7"@
    } else if d == 8 {
        "8"@
    } else {
        "9"@
    }
}

/// The decimal form of a count: its digits, the highest first.
pub open spec fn decimal(n: nat) -> Seq<char>
    decreases n,
{
    if n < 10 {
        digit(n)
    } else {
        decimal(n / 10) + digit(n % 10)
    }
}

fn digit_text(d: usize) -> (r: &'static str)
    requires
        d < 10,
    ensures
        r@ == digit(d as nat),
{
    if d == 0 {
        "0"
    } else if d == 1 {
        "1"
    } else if d == 2 {
        "2"
    } else if d == 3 {
        "3"
    } else if d == 4 {
        "4"
    } else if d == 5 {
        "5"
    } else if d == 6 {
        "6"
    } else if d == 7 {
        "7"
    } else if d == 8 {
        "8"
    } else {
        "9"
    }
}

/// The decimal form of a count.
pub fn decimal_text(n: usize) -> (r: String)
    ensures
        r@ == decimal(n as nat),
    decreases n,
{
    if n < 10 {
        String::from_str(digit_text(n))
    } else {
        decimal_text(n / 10).concat(digit_text(n % 10))
    }
}

/// What a failure for the number of arguments says: the name of the
/// callee, the number of arguments that it takes, and the number given.
pub open spec fn arity_detail(name: Seq<char>, taken: nat, given: nat) -> Seq<char> {
    name + ": expected "@ + decimal(taken) + " arguments but found "@ + decimal(given)
}

/// What a failure for the number of arguments says.
pub fn arity_text(name: &String, taken: usize, given: usize) -> (r: String)
    ensures
        r@ == arity_detail(name@, taken as nat, given as nat),
{
    let r = name.clone().concat(": expected ");
    let r = r.concat(decimal_text(taken).as_str());
    let r = r.concat(" arguments but found ");
    r.concat(decimal_text(given).as_str())
}

/// Whether the text is the one that the literal holds.
pub fn is(text: &String, literal: &str) -> (r: bool)
    ensures
        r == (text@ == literal@),
{
    let other = String::from_str(literal);
    *text == other
}

/// The text `a` followed by the text `b`.
pub fn joined(a: &str, b: &str) -> (r: String)
    ensures
        r@ == a@ + b@,
{
    String::from_str(a).concat(b)
}

} // verus!
