//! The order of similarity scores.

use vstd::prelude::*;

verus! {

/// The bit that holds the sign of a binary32 number.
pub const SIGN_BIT: u32 = 0x8000_0000;

/// The place of a score among all scores, as an integer: a larger key is a
/// better score.
///
/// A binary32 pattern is a sign bit over a 31-bit magnitude, and numbers of one
/// sign are ordered as their magnitudes are. So the key is the magnitude for a
/// clear sign bit and its negation for a set one. Both zeros get key 0, and two
/// patterns have equal keys exactly when they are the same pattern or the two
/// zeros, which is when the numbers they stand for are equal. A NaN is placed
/// by its pattern like any other: beyond the infinity of its sign.
pub open spec fn score_key(bits: u32) -> int {
    if bits < SIGN_BIT {
        bits as int
    } else {
        SIGN_BIT - bits
    }
}

/// Computes the key of a score.
pub fn key_of(bits: u32) -> (key: i64)
    ensures
        key == score_key(bits),
{
    if bits < SIGN_BIT {
        bits as i64
    } else {
        SIGN_BIT as i64 - bits as i64
    }
}

} // verus!
