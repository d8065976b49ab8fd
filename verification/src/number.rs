//! Numbers are IEEE-754 doubles, held as their 64 bits.
//!
//! What can be read off the bits is done here: the sign, the order and
//! equality. Sums, differences, products and quotients are not.

use vstd::prelude::*;

verus! {

pub const SIGN: u64 = 0x8000_0000_0000_0000;

pub const EXPONENT: u64 = 0x7ff0_0000_0000_0000;

pub const FRACTION: u64 = 0x000f_ffff_ffff_ffff;

/// The bits without the sign.
pub open spec fn magnitude(bits: u64) -> u64 {
    bits & !SIGN
}

/// Not a number: the exponent is all ones and the fraction is not zero.
pub open spec fn is_nan(bits: u64) -> bool {
    bits & EXPONENT == EXPONENT && bits & FRACTION != 0
}

/// The place of a double on the number line, as far as order goes: doubles
/// of one sign are ordered as their magnitudes are, and both zeros share a
/// place.
pub open spec fn place(bits: u64) -> int {
    if bits & SIGN != 0 {
        -(magnitude(bits) as int)
    } else {
        magnitude(bits) as int
    }
}

/// `left < right` on doubles: never so when either is not a number.
pub open spec fn less(left: u64, right: u64) -> bool {
    !is_nan(left) && !is_nan(right) && place(left) < place(right)
}

/// `left == right` on doubles: never so when either is not a number.
pub open spec fn equal(left: u64, right: u64) -> bool {
    !is_nan(left) && !is_nan(right) && place(left) == place(right)
}

/// `left <= right` on doubles.
pub open spec fn less_equal(left: u64, right: u64) -> bool {
    less(left, right) || equal(left, right)
}

/// `-bits`: the same double with the other sign.
pub open spec fn negated(bits: u64) -> u64 {
    bits ^ SIGN
}

pub fn nan(bits: u64) -> (answer: bool)
    ensures
        answer == is_nan(bits),
{
    bits & EXPONENT == EXPONENT && bits & FRACTION != 0
}

/// The place of a double on the number line.
pub fn placed(bits: u64) -> (at: i64)
    ensures
        at == place(bits),
{
    let size = bits & !SIGN;
    assert(bits & !SIGN <= 0x7fff_ffff_ffff_ffff) by (bit_vector);
    if bits & SIGN != 0 {
        -(size as i64)
    } else {
        size as i64
    }
}

pub fn is_less(left: u64, right: u64) -> (answer: bool)
    ensures
        answer == less(left, right),
{
    !nan(left) && !nan(right) && placed(left) < placed(right)
}

pub fn is_equal(left: u64, right: u64) -> (answer: bool)
    ensures
        answer == equal(left, right),
{
    !nan(left) && !nan(right) && placed(left) == placed(right)
}

pub fn is_less_equal(left: u64, right: u64) -> (answer: bool)
    ensures
        answer == less_equal(left, right),
{
    is_less(left, right) || is_equal(left, right)
}

pub fn negate(bits: u64) -> (opposite: u64)
    ensures
        opposite == negated(bits),
{
    bits ^ SIGN
}

/// Negating twice gives the number back, and negating moves a number that
/// is not zero to the other side of zero.
pub proof fn lemma_negated(bits: u64)
    ensures
        negated(negated(bits)) == bits,
        is_nan(negated(bits)) == is_nan(bits),
        place(negated(bits)) == -place(bits),
{
    assert((bits ^ SIGN) ^ SIGN == bits) by (bit_vector);
    assert((bits ^ SIGN) & EXPONENT == bits & EXPONENT) by (bit_vector);
    assert((bits ^ SIGN) & FRACTION == bits & FRACTION) by (bit_vector);
    assert((bits ^ SIGN) & !SIGN == bits & !SIGN) by (bit_vector);
    assert(((bits ^ SIGN) & SIGN != 0) == (bits & SIGN == 0)) by (bit_vector);
}

/// Of two numbers exactly one is so: the first is less, they are equal, or
/// the second is less. Of a pair with what is not a number none is so.
pub proof fn lemma_order(left: u64, right: u64)
    ensures
        !is_nan(left) && !is_nan(right) ==> (less(left, right) || equal(left, right) || less(right, left)),
        !(less(left, right) && equal(left, right)),
        !(less(left, right) && less(right, left)),
        is_nan(left) || is_nan(right) ==> !less(left, right) && !equal(left, right) && !less_equal(left, right),
        equal(left, right) == equal(right, left),
{
}

/// The order of numbers is transitive.
pub proof fn lemma_order_transitive(a: u64, b: u64, c: u64)
    requires
        less_equal(a, b),
        less_equal(b, c),
    ensures
        less_equal(a, c),
        less(a, b) || less(b, c) ==> less(a, c),
{
}

/// Both zeros are equal, though their bits differ.
pub proof fn lemma_zeros()
    ensures
        equal(0, SIGN),
        !less(0, SIGN),
        !less(SIGN, 0),
{
    assert(0u64 & SIGN == 0) by (bit_vector);
    assert(SIGN & SIGN != 0) by (bit_vector);
    assert(SIGN & !SIGN == 0) by (bit_vector);
    assert(0u64 & !SIGN == 0) by (bit_vector);
    assert(0u64 & EXPONENT == 0) by (bit_vector);
    assert(SIGN & EXPONENT == 0) by (bit_vector);
}

} // verus!
