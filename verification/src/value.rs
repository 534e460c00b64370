//! Values of the language, and numbers as bit patterns.
//!
//! A number is an IEEE-754 binary64 value, kept as the 64 bits that encode it:
//! the sign bit, then eleven bits of exponent, then the fraction. Equality,
//! order and negation depend on these bits in a way that a few lines state, and
//! are computed here; what rounds is left to the host of the machine.

use vstd::prelude::*;

verus! {

/// A runtime value. `Number` holds the bit pattern of an IEEE-754 binary64
/// number; `Obj` holds a handle into the heap.
#[derive(Clone, Copy, Debug, PartialEq, Eq, Structural)]
pub enum Value {
    Bool(bool),
    Nil,
    Number(u64),
    Obj(usize),
}

/// The sign bit of a binary64 bit pattern.
pub const SIGN_BIT: u64 = 0x8000_0000_0000_0000;

/// The bit pattern of positive infinity: the largest magnitude that is a number.
pub const INFINITY_BITS: u64 = 0x7ff0_0000_0000_0000;

/// The bit pattern without its sign bit.
pub open spec fn number_magnitude(bits: u64) -> int {
    if bits >= SIGN_BIT {
        bits - SIGN_BIT
    } else {
        bits as int
    }
}

/// Whether the bit pattern is a NaN: its magnitude lies above infinity's.
pub open spec fn number_is_nan(bits: u64) -> bool {
    number_magnitude(bits) > INFINITY_BITS
}

/// An integer that orders the bit patterns that are not NaN as the numbers
/// they stand for are ordered. Both zeros have rank 0.
pub open spec fn number_rank(bits: u64) -> int {
    if bits >= SIGN_BIT {
        -number_magnitude(bits)
    } else {
        number_magnitude(bits)
    }
}

/// Numeric equality: no NaN equals anything, the two zeros are equal.
pub open spec fn number_equal(a: u64, b: u64) -> bool {
    !number_is_nan(a) && !number_is_nan(b) && number_rank(a) == number_rank(b)
}

/// Numeric `a < b`: false whenever a NaN takes part.
pub open spec fn number_less(a: u64, b: u64) -> bool {
    !number_is_nan(a) && !number_is_nan(b) && number_rank(a) < number_rank(b)
}

/// The number with its sign flipped.
pub open spec fn number_negated(bits: u64) -> u64 {
    if bits >= SIGN_BIT {
        (bits - SIGN_BIT) as u64
    } else {
        (bits + SIGN_BIT) as u64
    }
}

fn magnitude(bits: u64) -> (m: u64)
    ensures
        m == number_magnitude(bits),
{
    if bits >= SIGN_BIT {
        bits - SIGN_BIT
    } else {
        bits
    }
}

/// Tells whether `bits` is a NaN.
pub fn is_nan(bits: u64) -> (r: bool)
    ensures
        r == number_is_nan(bits),
{
    magnitude(bits) > INFINITY_BITS
}

/// Compares two numbers for numeric equality.
pub fn numbers_equal(a: u64, b: u64) -> (r: bool)
    ensures
        r == number_equal(a, b),
{
    if is_nan(a) || is_nan(b) {
        return false;
    }
    let ma: u64 = magnitude(a);
    let mb: u64 = magnitude(b);
    if (a >= SIGN_BIT) == (b >= SIGN_BIT) {
        ma == mb
    } else {
        ma == 0 && mb == 0
    }
}

/// Tells whether `a` is numerically less than `b`.
pub fn numbers_less(a: u64, b: u64) -> (r: bool)
    ensures
        r == number_less(a, b),
{
    if is_nan(a) || is_nan(b) {
        return false;
    }
    let ma: u64 = magnitude(a);
    let mb: u64 = magnitude(b);
    if a >= SIGN_BIT {
        if b >= SIGN_BIT {
            ma > mb
        } else {
            ma > 0 || mb > 0
        }
    } else {
        if b >= SIGN_BIT {
            false
        } else {
            ma < mb
        }
    }
}

/// Flips the sign of a number.
pub fn negate_number(bits: u64) -> (r: u64)
    ensures
        r == number_negated(bits),
{
    if bits >= SIGN_BIT {
        bits - SIGN_BIT
    } else {
        bits + SIGN_BIT
    }
}

/// Negating a number twice gives the number back.
pub proof fn lemma_negate_twice(bits: u64)
    ensures
        number_negated(number_negated(bits)) == bits,
{
}

/// No number is less than itself, and `a < b` excludes `b < a` and `a == b`.
pub proof fn lemma_less_is_strict(a: u64, b: u64)
    ensures
        !number_less(a, a),
        number_less(a, b) ==> !number_less(b, a) && !number_equal(a, b),
{
}

} // verus!
