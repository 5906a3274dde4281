//! Ordering of IEEE 754 binary64 values given by their bit patterns.
//!
//! A coordinate travels through this crate as the 64-bit pattern of a
//! binary64 (double precision) value. This module defines, over those
//! patterns alone, the strict and non-strict comparisons of the encoded
//! values: NaN compares with nothing, the two zero patterns compare
//! equal, and every other pattern is ordered by sign and magnitude,
//! which agrees with the numeric order of the encoded values.

use vstd::prelude::*;

verus! {

/// Bit pattern of positive infinity.
pub const POS_INFINITY: u64 = 0x7ff0_0000_0000_0000;

/// Bit pattern of negative infinity.
pub const NEG_INFINITY: u64 = 0xfff0_0000_0000_0000;

/// The exponent field of a pattern.
pub open spec fn exponent_field(b: u64) -> u64 {
    (b >> 52) & 0x7ff
}

/// The fraction field of a pattern.
pub open spec fn fraction_field(b: u64) -> u64 {
    b & 0x000f_ffff_ffff_ffff
}

/// A pattern encodes NaN when its exponent field is all ones and its
/// fraction field is non-zero.
pub open spec fn spec_is_nan(b: u64) -> bool {
    exponent_field(b) == 0x7ff && fraction_field(b) != 0
}

/// The sign bit of a pattern.
pub open spec fn is_negative(b: u64) -> bool {
    b >> 63 == 1
}

/// The pattern with its sign bit cleared.
pub open spec fn magnitude(b: u64) -> u64 {
    b & 0x7fff_ffff_ffff_ffff
}

/// Order key of a pattern: its magnitude, negated when the sign bit is
/// set. Both zero patterns map to 0, so positive and negative zero
/// compare equal; on all non-NaN patterns the key order is the numeric
/// order of the encoded values.
pub open spec fn key(b: u64) -> int {
    if is_negative(b) {
        -(magnitude(b) as int)
    } else {
        magnitude(b) as int
    }
}

/// `<` of the encoded values: false whenever either pattern is NaN.
pub open spec fn spec_lt(a: u64, b: u64) -> bool {
    !spec_is_nan(a) && !spec_is_nan(b) && key(a) < key(b)
}

/// `<=` of the encoded values: false whenever either pattern is NaN.
pub open spec fn spec_le(a: u64, b: u64) -> bool {
    !spec_is_nan(a) && !spec_is_nan(b) && key(a) <= key(b)
}

/// Does the pattern encode NaN?
pub fn is_nan(b: u64) -> (r: bool)
    ensures
        r == spec_is_nan(b),
{
    ((b >> 52) & 0x7ff) == 0x7ff && (b & 0x000f_ffff_ffff_ffff) != 0
}

/// Is the value encoded by `a` strictly below the value encoded by `b`?
pub fn lt(a: u64, b: u64) -> (r: bool)
    ensures
        r == spec_lt(a, b),
{
    if is_nan(a) || is_nan(b) {
        false
    } else {
        let neg_a = (a >> 63) == 1;
        let neg_b = (b >> 63) == 1;
        let mag_a = a & 0x7fff_ffff_ffff_ffff;
        let mag_b = b & 0x7fff_ffff_ffff_ffff;
        if neg_a && neg_b {
            mag_b < mag_a
        } else if neg_a {
            !(mag_a == 0 && mag_b == 0)
        } else if neg_b {
            false
        } else {
            mag_a < mag_b
        }
    }
}

/// Neither infinity pattern encodes NaN.
pub proof fn lemma_infinities_not_nan()
    ensures
        !spec_is_nan(POS_INFINITY),
        !spec_is_nan(NEG_INFINITY),
{
    assert((0x7ff0_0000_0000_0000u64 & 0x000f_ffff_ffff_ffff) == 0) by (bit_vector);
    assert((0xfff0_0000_0000_0000u64 & 0x000f_ffff_ffff_ffff) == 0) by (bit_vector);
}

/// No non-NaN pattern has a key above positive infinity's, and only the
/// positive-infinity pattern itself reaches that key.
pub proof fn lemma_key_below_pos_infinity(b: u64)
    requires
        !spec_is_nan(b),
    ensures
        key(b) <= key(POS_INFINITY),
        key(b) == key(POS_INFINITY) ==> b == POS_INFINITY,
{
    assert((0x7ff0_0000_0000_0000u64 >> 63) != 1) by (bit_vector);
    assert((0x7ff0_0000_0000_0000u64 & 0x7fff_ffff_ffff_ffff) == 0x7ff0_0000_0000_0000)
        by (bit_vector);
    assert(!((b >> 52) & 0x7ff == 0x7ff && (b & 0x000f_ffff_ffff_ffff) != 0)
        ==> (b & 0x7fff_ffff_ffff_ffff) <= 0x7ff0_0000_0000_0000) by (bit_vector);
    assert((b >> 63) != 1 && (b & 0x7fff_ffff_ffff_ffff) == 0x7ff0_0000_0000_0000
        ==> b == 0x7ff0_0000_0000_0000) by (bit_vector);
}

/// No non-NaN pattern has a key below negative infinity's, and only the
/// negative-infinity pattern itself reaches that key.
pub proof fn lemma_key_above_neg_infinity(b: u64)
    requires
        !spec_is_nan(b),
    ensures
        key(b) >= key(NEG_INFINITY),
        key(b) == key(NEG_INFINITY) ==> b == NEG_INFINITY,
{
    assert((0xfff0_0000_0000_0000u64 >> 63) == 1) by (bit_vector);
    assert((0xfff0_0000_0000_0000u64 & 0x7fff_ffff_ffff_ffff) == 0x7ff0_0000_0000_0000)
        by (bit_vector);
    assert(!((b >> 52) & 0x7ff == 0x7ff && (b & 0x000f_ffff_ffff_ffff) != 0)
        ==> (b & 0x7fff_ffff_ffff_ffff) <= 0x7ff0_0000_0000_0000) by (bit_vector);
    assert((b >> 63) == 1 && (b & 0x7fff_ffff_ffff_ffff) == 0x7ff0_0000_0000_0000
        ==> b == 0xfff0_0000_0000_0000) by (bit_vector);
}

} // verus!
