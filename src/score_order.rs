//! Ordering of scores. A score is an IEEE-754 single-precision value,
//! carried as its 32-bit pattern; `score_key` maps each pattern to an
//! unsigned key whose order is the numeric order of the values.

use vstd::prelude::*;

verus! {

/// Patterns at or above this value have the sign bit set.
pub const SIGN_BIT: u32 = 0x8000_0000;

/// Largest magnitude pattern that is not a NaN (it encodes infinity).
pub const INFINITY_MAGNITUDE: u32 = 0x7f80_0000;

/// Whether the sign bit of a pattern is set.
pub open spec fn is_negative_pattern(b: u32) -> bool {
    b >= SIGN_BIT
}

/// The exponent and fraction bits of a pattern, without the sign.
pub open spec fn magnitude_bits(b: u32) -> int {
    if is_negative_pattern(b) {
        b - SIGN_BIT
    } else {
        b as int
    }
}

/// Whether a pattern encodes a NaN.
pub open spec fn is_nan_pattern(b: u32) -> bool {
    magnitude_bits(b) > INFINITY_MAGNITUDE
}

/// Numeric order of two non-NaN values, read from their patterns: among
/// values of one sign a larger magnitude pattern is a larger magnitude, and
/// negative zero equals positive zero.
pub open spec fn value_less(a: u32, b: u32) -> bool {
    if !is_negative_pattern(a) && !is_negative_pattern(b) {
        magnitude_bits(a) < magnitude_bits(b)
    } else if is_negative_pattern(a) && is_negative_pattern(b) {
        magnitude_bits(a) > magnitude_bits(b)
    } else if is_negative_pattern(a) {
        !(magnitude_bits(a) == 0 && magnitude_bits(b) == 0)
    } else {
        false
    }
}

/// Numeric equality of two non-NaN values, read from their patterns.
pub open spec fn value_equal(a: u32, b: u32) -> bool {
    a == b || (magnitude_bits(a) == 0 && magnitude_bits(b) == 0)
}

/// The key of a pattern: negative values count down from just below the
/// middle of the range, non-negative values count up from it, and both
/// zeros share the middle.
pub open spec fn key_of(b: u32) -> u32 {
    if b == SIGN_BIT {
        SIGN_BIT
    } else if is_negative_pattern(b) {
        (0xffff_ffffu32 - b) as u32
    } else {
        (b + SIGN_BIT) as u32
    }
}

/// The order key of a score given as its bit pattern.
pub fn score_key(bits: u32) -> (r: u32)
    ensures
        r == key_of(bits),
{
    if bits == SIGN_BIT {
        SIGN_BIT
    } else if bits > SIGN_BIT {
        0xffff_ffffu32 - bits
    } else {
        bits + SIGN_BIT
    }
}

/// Keys order non-NaN scores as their values: a key is smaller exactly when
/// the value is smaller, and keys are equal exactly when the values are.
pub proof fn lemma_key_order_is_value_order(a: u32, b: u32)
    requires
        !is_nan_pattern(a),
        !is_nan_pattern(b),
    ensures
        (key_of(a) < key_of(b)) == value_less(a, b),
        (key_of(a) == key_of(b)) == value_equal(a, b),
{
}

/// A NaN with the sign bit clear keys above every other pattern's key but
/// other such NaNs; one with the sign bit set keys below all but its kind.
pub proof fn lemma_nan_keys_at_the_ends(nan: u32, b: u32)
    requires
        is_nan_pattern(nan),
        !is_nan_pattern(b),
    ensures
        !is_negative_pattern(nan) ==> key_of(b) < key_of(nan),
        is_negative_pattern(nan) ==> key_of(nan) < key_of(b),
{
}

} // verus!
