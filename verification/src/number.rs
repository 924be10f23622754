//! Numbers are IEEE-754 binary64 values, held by their bit pattern: one sign
//! bit, eleven bits of exponent, fifty-two bits of fraction.

use vstd::prelude::*;
use vstd::arithmetic::power2::{
    lemma2_to64, lemma2_to64_rest, lemma_pow2_pos, lemma_pow2_strictly_increases, pow2,
};
use vstd::bits::{lemma_u64_shl_is_mul, lemma_u64_shr_is_div};
use crate::ast::CompareOp;

verus! {

/// The sign bit.
pub const SIGN_BIT: u64 = 0x8000_0000_0000_0000;

/// The bit pattern of positive infinity. Greater magnitudes are no numbers.
pub const INFINITY: u64 = 0x7FF0_0000_0000_0000;

/// The bit pattern of one.
pub const ONE: u64 = 0x3FF0_0000_0000_0000;

/// Two to the power of 52: the weight of the lowest bit of the exponent.
pub const FRACTION_RANGE: u64 = 0x10_0000_0000_0000;

/// The bit pattern without its sign bit.
pub open spec fn magnitude(bits: u64) -> u64 {
    if bits >= SIGN_BIT {
        (bits - SIGN_BIT) as u64
    } else {
        bits
    }
}

/// Whether the sign bit is set.
pub open spec fn is_negative(bits: u64) -> bool {
    bits >= SIGN_BIT
}

/// Whether the bit pattern is that of no number.
pub open spec fn is_nan(bits: u64) -> bool {
    magnitude(bits) > INFINITY
}

/// The place of a number on the number line. Among the bit patterns of
/// numbers, a greater magnitude is farther from zero, and the two zeros
/// share one place.
pub open spec fn line(bits: u64) -> int {
    if is_negative(bits) {
        -(magnitude(bits) as int)
    } else {
        magnitude(bits) as int
    }
}

/// Equality of two numbers. What is no number equals nothing.
pub open spec fn number_eq(a: u64, b: u64) -> bool {
    !is_nan(a) && !is_nan(b) && line(a) == line(b)
}

/// The strict order of two numbers. What is no number is in no order.
pub open spec fn number_lt(a: u64, b: u64) -> bool {
    !is_nan(a) && !is_nan(b) && line(a) < line(b)
}

/// The outcome of comparing the number `a` with the number `b`.
pub open spec fn number_compared(op: CompareOp, a: u64, b: u64) -> bool {
    match op {
        CompareOp::Less => number_lt(a, b),
        CompareOp::LessOrEqual => number_lt(a, b) || number_eq(a, b),
        CompareOp::Greater => number_lt(b, a),
        CompareOp::GreaterOrEqual => number_lt(b, a) || number_eq(a, b),
        CompareOp::Equal => number_eq(a, b),
        CompareOp::NotEqual => !number_eq(a, b),
    }
}

fn magnitude_of(bits: u64) -> (m: u64)
    ensures
        m == magnitude(bits),
{
    if bits >= SIGN_BIT {
        bits - SIGN_BIT
    } else {
        bits
    }
}

/// Whether the bit pattern is that of no number.
pub fn no_number(bits: u64) -> (r: bool)
    ensures
        r == is_nan(bits),
{
    magnitude_of(bits) > INFINITY
}

fn equal(a: u64, b: u64) -> (r: bool)
    ensures
        r == number_eq(a, b),
{
    let ma = magnitude_of(a);
    let mb = magnitude_of(b);
    if ma > INFINITY || mb > INFINITY {
        false
    } else if ma == 0 && mb == 0 {
        true
    } else {
        a == b
    }
}

fn less(a: u64, b: u64) -> (r: bool)
    ensures
        r == number_lt(a, b),
{
    let ma = magnitude_of(a);
    let mb = magnitude_of(b);
    if ma > INFINITY || mb > INFINITY {
        false
    } else if a >= SIGN_BIT {
        if b >= SIGN_BIT {
            ma > mb
        } else {
            ma > 0 || mb > 0
        }
    } else {
        if b >= SIGN_BIT {
            false
        } else {
            ma < mb
        }
    }
}

/// Compares the number `a` with the number `b`.
pub fn compare_numbers(op: CompareOp, a: u64, b: u64) -> (r: bool)
    ensures
        r == number_compared(op, a, b),
{
    match op {
        CompareOp::Less => less(a, b),
        CompareOp::LessOrEqual => less(a, b) || equal(a, b),
        CompareOp::Greater => less(b, a),
        CompareOp::GreaterOrEqual => less(b, a) || equal(a, b),
        CompareOp::Equal => equal(a, b),
        CompareOp::NotEqual => !equal(a, b),
    }
}

/// The exponent field of a bit pattern.
pub open spec fn exponent(bits: u64) -> int {
    magnitude(bits) as int / (FRACTION_RANGE as int)
}

/// The significand of a normal number: the fraction field under a leading one.
pub open spec fn significand(bits: u64) -> int {
    FRACTION_RANGE as int + magnitude(bits) as int % (FRACTION_RANGE as int)
}

/// The index that a number stands for: the number cut off towards zero, 0
/// for what is negative or no number, and no more than `u64::MAX`.
///
/// A normal number is its significand times two to the power of its exponent
/// less 1075.
pub open spec fn number_index(bits: u64) -> int {
    if is_negative(bits) || is_nan(bits) || exponent(bits) < 1023 {
        0
    } else if exponent(bits) >= 1087 {
        u64::MAX as int
    } else if exponent(bits) >= 1075 {
        significand(bits) * pow2((exponent(bits) - 1075) as nat)
    } else {
        significand(bits) / (pow2((1075 - exponent(bits)) as nat) as int)
    }
}

/// The index that a number stands for.
pub fn index_of(bits: u64) -> (r: u64)
    ensures
        r == number_index(bits),
{
    let m = magnitude_of(bits);
    if bits >= SIGN_BIT || m > INFINITY {
        return 0;
    }
    let e = m / FRACTION_RANGE;
    let s = FRACTION_RANGE + m % FRACTION_RANGE;
    if e < 1023 {
        0
    } else if e >= 1087 {
        u64::MAX
    } else if e >= 1075 {
        let shift = e - 1075;
        proof {
            lemma2_to64();
            lemma_pow2_pos(shift as nat);
            if shift < 11 {
                lemma_pow2_strictly_increases(shift as nat, 11);
            }
            assert(pow2(shift as nat) <= 0x800);
            assert(s * pow2(shift as nat) <= 0x1F_FFFF_FFFF_FFFF * 0x800) by (nonlinear_arith)
                requires
                    s <= 0x1F_FFFF_FFFF_FFFF,
                    0 < pow2(shift as nat) <= 0x800,
            ;
            lemma_u64_shl_is_mul(s, shift);
        }
        s << shift
    } else {
        let shift = 1075 - e;
        proof {
            lemma_u64_shr_is_div(s, shift);
        }
        s >> shift
    }
}

/// The position of the highest bit that is set in `n`; 0 for 0.
pub open spec fn floor_log2(n: nat) -> nat
    decreases n,
{
    if n <= 1 {
        0
    } else {
        1 + floor_log2(n / 2)
    }
}

/// The 53 highest bits of `n`, whose highest set bit is at position `p`,
/// rounded to the nearest, and to the even one of two that are equally near.
pub open spec fn rounded_significand(n: nat, p: nat) -> int {
    if p <= 52 {
        (n * pow2((52 - p) as nat)) as int
    } else {
        let d = pow2((p - 52) as nat) as int;
        let q = n as int / d;
        let rest = n as int % d;
        if 2 * rest > d || (2 * rest == d && q % 2 == 1) {
            q + 1
        } else {
            q
        }
    }
}

/// The bit pattern of the number nearest to the count `n`.
pub open spec fn number_of(n: nat) -> int {
    if n == 0 {
        0
    } else {
        (1022 + floor_log2(n)) * (FRACTION_RANGE as int) + rounded_significand(n, floor_log2(n))
    }
}

proof fn floor_log2_between(n: nat, p: nat)
    requires
        pow2(p) <= n < pow2(p + 1),
    ensures
        floor_log2(n) == p,
    decreases p,
{
    vstd::arithmetic::power2::lemma_pow2_unfold(p + 1);
    if p == 0 {
        lemma2_to64();
    } else {
        vstd::arithmetic::power2::lemma_pow2_unfold(p);
        floor_log2_between(n / 2, (p - 1) as nat);
    }
}

/// The number nearest to the count `n`.
pub fn number_from_count(n: u64) -> (r: u64)
    ensures
        r == number_of(n as nat),
{
    if n == 0 {
        return 0;
    }
    let mut p: u64 = 0;
    let mut top: u64 = 1;
    proof {
        lemma2_to64();
    }
    while p < 63 && top <= n / 2
        invariant
            p <= 63,
            top == pow2(p as nat),
            top <= n,
        decreases 63 - p,
    {
        proof {
            vstd::arithmetic::power2::lemma_pow2_unfold((p + 1) as nat);
        }
        top = top * 2;
        p = p + 1;
    }
    proof {
        lemma2_to64_rest();
        vstd::arithmetic::power2::lemma_pow2_unfold((p + 1) as nat);
        assert(n < pow2((p + 1) as nat));
        floor_log2_between(n as nat, p as nat);
    }
    let s: u64 = if p <= 52 {
        let shift = 52 - p;
        proof {
            vstd::arithmetic::power2::lemma_pow2_adds(p as nat, shift as nat);
            lemma_pow2_pos(shift as nat);
            assert(n * pow2(shift as nat) < pow2((p + 1) as nat) * pow2(shift as nat))
                by (nonlinear_arith)
                requires
                    n < pow2((p + 1) as nat),
                    pow2(shift as nat) > 0,
            ;
            vstd::arithmetic::power2::lemma_pow2_adds((p + 1) as nat, shift as nat);
            assert(pow2(53) == 0x20_0000_0000_0000);
            lemma_u64_shl_is_mul(n, shift);
        }
        n << shift
    } else {
        let shift = p - 52;
        proof {
            lemma_pow2_pos(shift as nat);
            lemma_pow2_strictly_increases(shift as nat, 12);
            assert(pow2(12) == 0x1000);
            lemma_u64_shl_is_mul(1, shift);
        }
        let d: u64 = 1u64 << shift;
        let q = n / d;
        let rest = n % d;
        assert(q <= n);
        assert(rest < d);
        if rest > d - rest || (rest == d - rest && q % 2 == 1) {
            assert(q < u64::MAX) by (nonlinear_arith)
                requires
                    q == n / d,
                    d >= 2,
                    n <= u64::MAX,
            ;
            q + 1
        } else {
            q
        }
    };
    proof {
        assert(s == rounded_significand(n as nat, p as nat));
        assert(s <= FRACTION_RANGE * 2) by {
            if p <= 52 {
                vstd::arithmetic::power2::lemma_pow2_adds((p + 1) as nat, (52 - p) as nat);
                lemma_pow2_pos((52 - p) as nat);
                assert(n * pow2((52 - p) as nat) < pow2((p + 1) as nat) * pow2((52 - p) as nat))
                    by (nonlinear_arith)
                    requires
                        n < pow2((p + 1) as nat),
                        pow2((52 - p) as nat) > 0,
                ;
            } else {
                let d = pow2((p - 52) as nat);
                vstd::arithmetic::power2::lemma_pow2_adds(53nat, (p - 52) as nat);
                lemma_pow2_pos((p - 52) as nat);
                assert((n as int) / (d as int) < 0x20_0000_0000_0000) by (nonlinear_arith)
                    requires
                        n < 0x20_0000_0000_0000 * d,
                        d > 0,
                ;
            }
        };
    }
    (1022 + p) * FRACTION_RANGE + s
}

} // verus!
