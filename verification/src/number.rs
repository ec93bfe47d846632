//! Numbers. A number is the bit pattern of a double-precision value; what can be read
//! off the bits (sign, zero, equality, order) is decided here, and arithmetic is left
//! to an `Arithmetic` that the caller brings.

use vstd::prelude::*;

verus! {

/// The bits of zero.
pub const ZERO_BITS: u64 = 0;

/// The bits of one half.
pub const HALF_BITS: u64 = 0x3FE0_0000_0000_0000;

/// The bits of one.
pub const ONE_BITS: u64 = 0x3FF0_0000_0000_0000;

/// The bit that holds the sign.
pub const SIGN_BIT: u64 = 0x8000_0000_0000_0000;

/// The bits that hold exponent and fraction.
pub const MAGNITUDE_BITS: u64 = 0x7FFF_FFFF_FFFF_FFFF;

/// The bits of positive infinity; a larger magnitude is not a number.
pub const INFINITY_BITS: u64 = 0x7FF0_0000_0000_0000;

/// A number, held as the bit pattern of a double-precision value.
#[derive(Debug, Clone, Copy, PartialEq, Eq, Structural)]
pub struct DreamberdNumber {
    pub bits: u64,
}

impl DreamberdNumber {
    pub fn new(bits: u64) -> (n: Self)
        ensures
            n.bits == bits,
    {
        DreamberdNumber { bits }
    }
}

/// The bits without the sign.
pub open spec fn magnitude(bits: u64) -> u64 {
    bits & MAGNITUDE_BITS
}

/// Whether the bits hold no number.
pub open spec fn is_nan(bits: u64) -> bool {
    magnitude(bits) > INFINITY_BITS
}

/// Whether the bits hold zero, of either sign.
pub open spec fn is_zero(bits: u64) -> bool {
    magnitude(bits) == 0
}

/// Whether two bit patterns hold equal numbers: what is no number equals nothing, and
/// the two zeros are equal.
pub open spec fn numbers_equal(a: u64, b: u64) -> bool {
    !is_nan(a) && !is_nan(b) && (a == b || (is_zero(a) && is_zero(b)))
}

/// An integer that orders numbers as their values are ordered.
pub open spec fn order_key(bits: u64) -> int {
    if bits & SIGN_BIT != 0 {
        -(magnitude(bits) as int)
    } else {
        magnitude(bits) as int
    }
}

/// Whether the number of `a` is less than that of `b`; false if either is no number.
pub open spec fn number_less(a: u64, b: u64) -> bool {
    !is_nan(a) && !is_nan(b) && order_key(a) < order_key(b)
}

/// Whether the number of `a` is less than or equal to that of `b`.
pub open spec fn number_less_equal(a: u64, b: u64) -> bool {
    !is_nan(a) && !is_nan(b) && order_key(a) <= order_key(b)
}

/// Whether the bits hold zero.
pub fn zero(bits: u64) -> (r: bool)
    ensures
        r == is_zero(bits),
{
    bits & MAGNITUDE_BITS == 0
}

/// Whether the bits hold no number.
pub fn not_a_number(bits: u64) -> (r: bool)
    ensures
        r == is_nan(bits),
{
    bits & MAGNITUDE_BITS > INFINITY_BITS
}

/// Whether two bit patterns hold equal numbers.
pub fn equal(a: u64, b: u64) -> (r: bool)
    ensures
        r == numbers_equal(a, b),
{
    !not_a_number(a) && !not_a_number(b) && (a == b || (zero(a) && zero(b)))
}

fn key_of(bits: u64) -> (k: i128)
    ensures
        k == order_key(bits),
{
    let m = bits & MAGNITUDE_BITS;
    assert(m <= 0x7FFF_FFFF_FFFF_FFFF) by (bit_vector)
        requires
            m == bits & 0x7FFF_FFFF_FFFF_FFFF,
    ;
    if bits & SIGN_BIT != 0 {
        -(m as i128)
    } else {
        m as i128
    }
}

/// Whether the number of `a` is less than that of `b`.
pub fn less(a: u64, b: u64) -> (r: bool)
    ensures
        r == number_less(a, b),
{
    !not_a_number(a) && !not_a_number(b) && key_of(a) < key_of(b)
}

/// Whether the number of `a` is less than or equal to that of `b`.
pub fn less_equal(a: u64, b: u64) -> (r: bool)
    ensures
        r == number_less_equal(a, b),
{
    !not_a_number(a) && !not_a_number(b) && key_of(a) <= key_of(b)
}

/// The arithmetic operations.
#[derive(Debug, Clone, Copy, PartialEq, Eq, Structural)]
pub enum ArithmeticOperator {
    Add,
    Subtract,
    Multiply,
    Divide,
    Power,
}

/// What a number is as an index.
#[derive(Debug, Clone, Copy, PartialEq, Eq, Structural)]
pub struct IndexParts {
    /// Whether the number has no fractional part.
    pub is_whole: bool,
    /// The number without its fractional part.
    pub truncated: i64,
    /// The largest whole number that is not above the number.
    pub floor: i64,
}

/// The operations on numbers that need more than the bits tell: arithmetic, and
/// reading and writing numerals. Every number is given and returned as its bit pattern.
pub trait Arithmetic {
    /// `left` and `right` combined by `operator`.
    fn compute(&self, operator: ArithmeticOperator, left: u64, right: u64) -> u64;

    /// The square root of `x`.
    fn square_root(&self, x: u64) -> u64;

    /// The number that `text` writes, if it writes one.
    fn parse(&self, text: &str) -> Option<u64>;

    /// The whole number that `x` is within a hundred-millionth of, if there is one.
    fn whole_near(&self, x: u64) -> Option<i64>;

    /// `x` as shown to a reader, in the default decimal form.
    fn display(&self, x: u64) -> String;

    /// `x` as written in source text.
    fn literal(&self, x: u64) -> String;

    /// The number `n`.
    fn from_count(&self, n: usize) -> u64;

    /// `x` as an index.
    fn index_parts(&self, x: u64) -> IndexParts;
}

} // verus!
