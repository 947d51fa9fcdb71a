//! What holds of `f64` bit patterns, for all of them.
use crate::binary64;
use vstd::prelude::*;

verus! {

/// The patterns of the numbers in `(0, 1]` are those from the least positive
/// number's to that of 1.0, without a gap.
pub proof fn lemma_unit_interval_is_a_range(bits: u64)
    ensures
        binary64::in_unit_interval(bits) <==> 1 <= bits <= 0x3FF0_0000_0000_0000,
{
    binary64::lemma_unit_interval(bits);
}

/// The patterns that are not finite are those whose exponent is all ones, with
/// either sign.
pub proof fn lemma_not_finite_is_two_ranges(bits: u64)
    ensures
        !binary64::is_finite(bits) <==> (0x7FF0_0000_0000_0000 <= bits <= 0x7FFF_FFFF_FFFF_FFFF
            || 0xFFF0_0000_0000_0000 <= bits),
{
}

/// The total order: patterns without a sign ascend, patterns with one descend
/// and stand before all others, and no two patterns stand at one place.
pub proof fn lemma_total_order(a: u64, b: u64)
    ensures
        a < 0x8000_0000_0000_0000 && b < 0x8000_0000_0000_0000 ==> (binary64::total_rank(a)
            < binary64::total_rank(b) <==> a < b),
        a >= 0x8000_0000_0000_0000 && b >= 0x8000_0000_0000_0000 ==> (binary64::total_rank(a)
            < binary64::total_rank(b) <==> b < a),
        a >= 0x8000_0000_0000_0000 && b < 0x8000_0000_0000_0000 ==> binary64::total_rank(a)
            < binary64::total_rank(b),
        binary64::total_rank(a) == binary64::total_rank(b) ==> a == b,
        binary64::total_rank(0) == 0,
{
}

/// Positive finite numbers are ordered as their magnitudes are.
pub proof fn lemma_rank_follows_magnitude(a: u64, b: u64)
    requires
        a < b < 0x7FF0_0000_0000_0000,
    ensures
        binary64::total_rank(a) < binary64::total_rank(b),
        binary64::magnitude(a) < binary64::magnitude(b),
{
    binary64::lemma_magnitude_grows(a, b);
}

}
