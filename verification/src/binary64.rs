//! Double-precision numbers as bit patterns.
//!
//! Latencies and blending factors are `f64` values. This crate never computes
//! with them; it stores their IEEE 754 bit patterns (`f64::to_bits`), decides
//! which are admissible and orders them.
use vstd::arithmetic::power2;
use vstd::prelude::*;

verus! {

/// The bit pattern of `0.0`.
pub const ZERO: u64 = 0;

/// The bit pattern of `1.0`.
pub const ONE: u64 = 0x3FF0_0000_0000_0000;

/// The sign bit is set.
pub open spec fn is_negative(bits: u64) -> bool {
    bits >= 0x8000_0000_0000_0000
}

/// The eleven bits of the exponent.
pub open spec fn exponent_field(bits: u64) -> int {
    (bits as int / 0x10_0000_0000_0000) % 0x800
}

/// The fifty-two bits of the fraction.
pub open spec fn fraction_field(bits: u64) -> int {
    bits as int % 0x10_0000_0000_0000
}

/// Neither an infinity nor a NaN.
pub open spec fn is_finite(bits: u64) -> bool {
    exponent_field(bits) != 0x7FF
}

/// The absolute value of a finite number, in units of the smallest positive
/// one (two to the power of -1074).
pub open spec fn magnitude(bits: u64) -> int {
    if exponent_field(bits) == 0 {
        fraction_field(bits)
    } else {
        (0x10_0000_0000_0000 + fraction_field(bits)) * power2::pow2((exponent_field(bits) - 1) as nat)
    }
}

/// The number lies in the half-open interval `(0, 1]`.
pub open spec fn in_unit_interval(bits: u64) -> bool {
    &&& !is_negative(bits)
    &&& is_finite(bits)
    &&& 0 < magnitude(bits) <= power2::pow2(1074)
}

/// Where a bit pattern stands in the IEEE 754 total order (the order of
/// `f64::total_cmp`): negative patterns downwards from -1, the others upwards
/// from 0.
pub open spec fn total_rank(bits: u64) -> int {
    if is_negative(bits) {
        0x7FFF_FFFF_FFFF_FFFF - bits
    } else {
        bits as int
    }
}

/// Whether the number lies in `(0, 1]`.
pub fn check_unit_interval(bits: u64) -> (r: bool)
    ensures
        r == in_unit_interval(bits),
{
    proof {
        lemma_unit_interval(bits);
    }
    ZERO < bits && bits <= ONE
}

/// Whether the number is finite.
pub fn check_finite(bits: u64) -> (r: bool)
    ensures
        r == is_finite(bits),
{
    (bits / 0x10_0000_0000_0000) % 0x800 != 0x7FF
}

/// Whether `a` stands before `b` in the total order.
pub fn precedes(a: u64, b: u64) -> (r: bool)
    ensures
        r == (total_rank(a) < total_rank(b)),
{
    let a_negative = a >= 0x8000_0000_0000_0000;
    let b_negative = b >= 0x8000_0000_0000_0000;
    if a_negative {
        !b_negative || b < a
    } else {
        !b_negative && a < b
    }
}

/// The patterns in the unit interval stand between those of 0.0 and 1.0.
pub proof fn lemma_unit_interval(bits: u64)
    ensures
        in_unit_interval(bits) <==> ZERO < bits && bits <= ONE,
{
    let e = exponent_field(bits);
    let f = fraction_field(bits);
    let one: int = 0x10_0000_0000_0000;
    power2::lemma2_to64_rest();
    power2::lemma_pow2_pos(1074);
    power2::lemma_pow2_adds(52, 1022);
    if !is_negative(bits) {
        assert(bits == e * one + f);
        if e == 0 {
            power2::lemma_pow2_strictly_increases(52, 1074);
        } else {
            let scale = power2::pow2((e - 1) as nat);
            power2::lemma_pow2_pos((e - 1) as nat);
            assert((one + f) * scale > 0) by (nonlinear_arith)
                requires
                    one + f > 0,
                    scale > 0,
            ;
            if e <= 1022 {
                power2::lemma_pow2_adds(53, (e - 1) as nat);
                assert((one + f) * scale <= (2 * one) * scale) by (nonlinear_arith)
                    requires
                        one + f <= 2 * one,
                        scale > 0,
                ;
                if e < 1022 {
                    power2::lemma_pow2_strictly_increases((52 + e) as nat, 1074);
                }
            } else if e == 1023 {
                assert((one + f) * scale == one * scale + f * scale) by (nonlinear_arith);
                assert(f > 0 ==> f * scale > 0) by (nonlinear_arith)
                    requires
                        scale > 0,
                ;
            } else {
                power2::lemma_pow2_adds(52, (e - 1) as nat);
                power2::lemma_pow2_strictly_increases(1074, (51 + e) as nat);
                assert((one + f) * scale >= one * scale) by (nonlinear_arith)
                    requires
                        f >= 0,
                        scale > 0,
                ;
            }
        }
    }
}

/// A greater pattern without a sign is a greater number.
pub proof fn lemma_magnitude_grows(a: u64, b: u64)
    requires
        a < b < 0x7FF0_0000_0000_0000,
    ensures
        magnitude(a) < magnitude(b),
{
    let one: int = 0x10_0000_0000_0000;
    let e = exponent_field(a);
    let f = fraction_field(a);
    let g = exponent_field(b);
    let h = fraction_field(b);
    assert(a == e * one + f);
    assert(b == g * one + h);
    if g > 0 {
        let upper = power2::pow2((g - 1) as nat) as int;
        power2::lemma_pow2_pos((g - 1) as nat);
        assert((one + h) * upper >= one * upper >= one) by (nonlinear_arith)
            requires
                h >= 0,
                one > 0,
                upper >= 1,
        ;
        if e > 0 {
            let lower = power2::pow2((e - 1) as nat) as int;
            power2::lemma_pow2_pos((e - 1) as nat);
            if e == g {
                assert((one + f) * lower < (one + h) * lower) by (nonlinear_arith)
                    requires
                        f < h,
                        lower > 0,
                ;
            } else {
                power2::lemma_pow2_adds(1, (e - 1) as nat);
                power2::lemma2_to64();
                if e < g - 1 {
                    power2::lemma_pow2_strictly_increases(e as nat, (g - 1) as nat);
                }
                assert(2 * lower <= upper);
                assert((one + f) * lower < one * upper) by (nonlinear_arith)
                    requires
                        f < one,
                        lower > 0,
                        2 * lower <= upper,
                        one > 0,
                ;
            }
        }
    }
}

}
