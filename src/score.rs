use vstd::prelude::*;

verus! {

/// Largest `u32`, used to mirror negative bit patterns into the low half of the order.
pub const BITS_MAX: u32 = 0xffff_ffff;

/// The sign bit of a single-precision bit pattern.
pub const SIGN_BIT: u32 = 0x8000_0000;

/// Exponent field of a single-precision bit pattern (0 ..= 255).
pub open spec fn exponent_of(bits: u32) -> int {
    (bits as int / 0x80_0000) % 0x100
}

/// Mantissa field of a single-precision bit pattern.
pub open spec fn mantissa_of(bits: u32) -> int {
    bits as int % 0x80_0000
}

/// The pattern encodes "not a number": all exponent bits set and a non-zero mantissa.
pub open spec fn is_nan_bits(bits: u32) -> bool {
    exponent_of(bits) == 0xff && mantissa_of(bits) != 0
}

/// Position of a bit pattern in the IEEE 754 total order. On every pair of
/// patterns that are not NaN it orders as the numbers they encode, with
/// negative zero placed just below positive zero.
pub open spec fn order_key(bits: u32) -> int {
    if bits >= SIGN_BIT {
        BITS_MAX - bits
    } else {
        bits + SIGN_BIT
    }
}

/// Executable form of `is_nan_bits`.
pub fn nan_bits(bits: u32) -> (r: bool)
    ensures
        r == is_nan_bits(bits),
{
    (bits / 0x80_0000) % 0x100 == 0xff && bits % 0x80_0000 != 0
}

/// Executable form of `order_key`.
pub fn total_order_key(bits: u32) -> (r: u32)
    ensures
        r == order_key(bits),
{
    if bits >= SIGN_BIT {
        BITS_MAX - bits
    } else {
        bits + SIGN_BIT
    }
}

/// The health record of one endpoint.
///
/// The fitness number and the reliability are single-precision numbers held
/// as their IEEE 754 bit patterns; a value `x` is stored as `x.to_bits()` and
/// read back with `from_bits`.
#[derive(Clone, Copy, Debug, PartialEq, Eq, Structural)]
pub struct Score {
    /// Moving average of the response time, in nanoseconds.
    pub response_avg_nanos: u64,
    /// Bit pattern of the fitness number; higher is better.
    pub score_bits: u32,
    /// Bit pattern of the reliability, a number in `[0, 1]`.
    pub reliability_bits: u32,
}

impl Score {
    /// Builds a score from its three parts.
    pub fn new(score_bits: u32, reliability_bits: u32, response_avg_nanos: u64) -> (r: Score)
        ensures
            r.score_bits == score_bits,
            r.reliability_bits == reliability_bits,
            r.response_avg_nanos == response_avg_nanos,
    {
        Score { response_avg_nanos, score_bits, reliability_bits }
    }
}

impl Default for Score {
    /// The prior used for an endpoint that has no record yet: a zero average,
    /// a zero fitness number and a zero reliability (all-zero bits encode `+0`).
    fn default() -> (r: Score)
        ensures
            r == (Score { response_avg_nanos: 0, score_bits: 0, reliability_bits: 0 }),
    {
        Score { response_avg_nanos: 0, score_bits: 0, reliability_bits: 0 }
    }
}

} // verus!
