//! Similarity scores. A score is the bits of a single-precision number; the comparisons here
//! are those of IEEE 754, done on the bits.
use vstd::prelude::*;

verus! {

/// Whether the bits stand for no number.
pub open spec fn is_nan(bits: u32) -> bool {
    0x7f80_0000 < bits < 0x8000_0000 || 0xff80_0000 < bits
}

/// A place on the line of integers, in the order of the numbers that the bits stand for. The
/// two zeros share one place.
pub open spec fn rank(bits: u32) -> int {
    if bits < 0x8000_0000 {
        bits as int
    } else {
        0x8000_0000 - bits
    }
}

/// `a >= b`, as numbers.
pub open spec fn at_least(a: u32, b: u32) -> bool {
    !is_nan(a) && !is_nan(b) && rank(a) >= rank(b)
}

/// `a > b`, as numbers.
pub open spec fn above(a: u32, b: u32) -> bool {
    !is_nan(a) && !is_nan(b) && rank(a) > rank(b)
}

/// Whether the bits stand for no number.
pub fn nan(bits: u32) -> (r: bool)
    ensures
        r == is_nan(bits),
{
    (0x7f80_0000 < bits && bits < 0x8000_0000) || 0xff80_0000 < bits
}

/// The place of the bits in the order of the numbers that they stand for.
pub fn place(bits: u32) -> (r: i64)
    ensures
        r == rank(bits),
{
    if bits < 0x8000_0000 {
        bits as i64
    } else {
        0x8000_0000 - bits as i64
    }
}

/// `a >= b`, as numbers: false where either is no number.
pub fn ge(a: u32, b: u32) -> (r: bool)
    ensures
        r == at_least(a, b),
{
    !nan(a) && !nan(b) && place(a) >= place(b)
}

/// `a > b`, as numbers: false where either is no number.
pub fn gt(a: u32, b: u32) -> (r: bool)
    ensures
        r == above(a, b),
{
    !nan(a) && !nan(b) && place(a) > place(b)
}

/// Of two numbers, one is above the other or they rank the same; and nothing ranks with what
/// is no number.
pub proof fn law_scores_are_ordered(a: u32, b: u32)
    ensures
        !is_nan(a) && !is_nan(b) ==> (at_least(a, b) <==> !above(b, a)),
        is_nan(a) || is_nan(b) ==> !at_least(a, b) && !above(a, b),
        above(a, b) ==> at_least(a, b) && !above(b, a),
{
}

/// The order of scores is transitive.
pub proof fn law_scores_are_transitive(a: u32, b: u32, c: u32)
    requires
        at_least(a, b),
        at_least(b, c),
    ensures
        at_least(a, c),
        above(a, b) || above(b, c) ==> above(a, c),
{
}

/// The order of scores is that of the numbers: of two that are not negative the one with the
/// larger bits is above, of two negative ones the one with the smaller bits, and no negative
/// one is above one that is not. The two zeros are equal, and every other number differs from
/// all others.
pub proof fn law_scores_rank_as_numbers(a: u32, b: u32)
    requires
        !is_nan(a),
        !is_nan(b),
    ensures
        a < 0x8000_0000 && b < 0x8000_0000 ==> (above(a, b) <==> a > b) && (at_least(a, b) <==> a
            >= b),
        a >= 0x8000_0000 && b >= 0x8000_0000 ==> (above(a, b) <==> a < b) && (at_least(a, b) <==> a
            <= b),
        a < 0x8000_0000 && b >= 0x8000_0000 ==> at_least(a, b) && !above(b, a) && (above(a, b)
            <==> !(a == 0 && b == 0x8000_0000)) && (at_least(b, a) <==> a == 0 && b
            == 0x8000_0000),
{
}

/// What is no number has all bits of the exponent and some of the fraction.
pub proof fn law_nan_by_its_bits(bits: u32)
    ensures
        is_nan(bits) <==> (bits & 0x7f80_0000 == 0x7f80_0000 && bits & 0x007f_ffff != 0),
{
    assert((0x7f80_0000 < bits && bits < 0x8000_0000 || 0xff80_0000 < bits) <==> (bits
        & 0x7f80_0000 == 0x7f80_0000 && bits & 0x007f_ffff != 0)) by (bit_vector);
}

/// The place of a number on the line is its bits without the sign, with the sign of the
/// number.
pub proof fn law_place_has_the_sign(bits: u32)
    ensures
        rank(bits) == if bits & 0x8000_0000 == 0 {
            (bits & 0x7fff_ffff) as int
        } else {
            -((bits & 0x7fff_ffff) as int)
        },
{
    assert((bits & 0x8000_0000 == 0) == (bits < 0x8000_0000)) by (bit_vector);
    assert(bits < 0x8000_0000 ==> bits & 0x7fff_ffff == bits) by (bit_vector);
    assert(bits >= 0x8000_0000 ==> bits & 0x7fff_ffff == bits - 0x8000_0000) by (bit_vector);
}

}
