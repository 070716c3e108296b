//! Ordered codes for numbers in the IEEE 754 single format.
//!
//! Such a number is a sign bit above 31 bits of magnitude, and among
//! numbers of one sign a larger magnitude is a number farther from zero.
//! Its code is the magnitude with the sign of the number in front, as an
//! ordinary integer.  Codes compare as the numbers do, so whatever is
//! decided by comparing numbers can be decided on their codes.

use vstd::prelude::*;

verus! {

/// The bit that holds the sign.
pub const SIGN_BIT: u32 = 0x8000_0000;

/// The magnitude of infinity; the magnitudes above it are not numbers.
pub const INFINITY_MAGNITUDE: u32 = 0x7f80_0000;

/// The pattern has its sign bit set.
pub open spec fn is_negative(bits: u32) -> bool {
    bits >= SIGN_BIT
}

/// The 31 bits below the sign bit.
pub open spec fn magnitude(bits: u32) -> int {
    if bits >= SIGN_BIT {
        bits - SIGN_BIT
    } else {
        bits as int
    }
}

/// The pattern stands for a number, finite or infinite.
pub open spec fn is_number(bits: u32) -> bool {
    magnitude(bits) <= INFINITY_MAGNITUDE
}

/// The code of a pattern: its magnitude, negated if the sign bit is set.
pub open spec fn spec_encode(bits: u32) -> int {
    if is_negative(bits) {
        -magnitude(bits)
    } else {
        magnitude(bits)
    }
}

/// The pattern of a code: the code itself from zero on, and below zero the
/// sign bit above the magnitude.  The one code whose magnitude has no room
/// in 31 bits gets the pattern of all ones, which is not a number.
pub open spec fn spec_decode(code: i32) -> int {
    if code >= 0 {
        code as int
    } else if code == i32::MIN {
        u32::MAX as int
    } else {
        SIGN_BIT - code
    }
}

/// Whether the number of the pattern `a` is less than that of `b`, as the
/// format orders numbers: by magnitude among numbers that are not negative,
/// against it among negative ones, a negative number before one that is
/// not, and the two zeros equal.  This is the order of the format only
/// where both patterns are numbers.
pub open spec fn less(a: u32, b: u32) -> bool {
    if is_negative(a) {
        if is_negative(b) {
            magnitude(a) > magnitude(b)
        } else {
            magnitude(a) > 0 || magnitude(b) > 0
        }
    } else {
        !is_negative(b) && magnitude(a) < magnitude(b)
    }
}

/// The code of the number with the given bit pattern.
pub fn encode(bits: u32) -> (code: i32)
    ensures
        code == spec_encode(bits),
        code > i32::MIN,
{
    if bits < SIGN_BIT {
        bits as i32
    } else {
        let magnitude: u32 = bits - SIGN_BIT;
        -(magnitude as i32)
    }
}

/// The bit pattern of the number with the given code.
pub fn decode(code: i32) -> (bits: u32)
    ensures
        bits == spec_decode(code),
{
    if code >= 0 {
        code as u32
    } else if code == i32::MIN {
        u32::MAX
    } else {
        let magnitude: i32 = -code;
        SIGN_BIT + (magnitude as u32)
    }
}

/// Codes order patterns as the format orders their numbers.
pub proof fn lemma_codes_keep_order(a: u32, b: u32)
    ensures
        spec_encode(a) < spec_encode(b) <==> less(a, b),
        spec_encode(a) == spec_encode(b) <==> !less(a, b) && !less(b, a),
{
}

/// The codes of all numbers lie between the codes of the two infinities.
pub proof fn lemma_numbers_within_infinities(bits: u32)
    requires
        is_number(bits),
    ensures
        -INFINITY_MAGNITUDE <= spec_encode(bits) <= INFINITY_MAGNITUDE,
{
}

/// The opposite number has the opposite code.
pub proof fn lemma_opposite(bits: u32)
    ensures
        spec_encode(if is_negative(bits) {
            (bits - SIGN_BIT) as u32
        } else {
            (bits + SIGN_BIT) as u32
        }) == -spec_encode(bits),
{
}

/// Every code but the least is the code of its own pattern.
pub proof fn lemma_encode_decode(code: i32)
    requires
        code > i32::MIN,
    ensures
        spec_encode(spec_decode(code) as u32) == code,
{
}

/// Every pattern but that of negative zero is the pattern of its own code;
/// negative zero shares the code of zero.
pub proof fn lemma_decode_encode(bits: u32)
    ensures
        bits != SIGN_BIT ==> spec_decode(spec_encode(bits) as i32) == bits,
        spec_encode(SIGN_BIT) == 0,
        spec_decode(0) == 0,
{
}

} // verus!
