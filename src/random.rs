//! Random draws for wave generation, from the alea generator.
use vstd::prelude::*;

verus! {

/// Relies on alea::u32_less_than: a draw below `n`.
#[verifier::external_body]
pub(crate) fn roll_below(n: u32) -> (r: u32)
    requires
        n > 0,
    ensures
        r < n,
{
    alea::u32_less_than(n)
}

/// Relies on alea::u32_in_range: a draw from `min` to `max`, both included.
#[verifier::external_body]
pub(crate) fn roll_u32(min: u32, max: u32) -> (r: u32)
    requires
        min < max < u32::MAX,
    ensures
        min <= r <= max,
{
    alea::u32_in_range(min, max)
}

/// Relies on alea::i64_in_range: a draw from `min` to `max`, both included.
#[verifier::external_body]
pub(crate) fn roll_i64(min: i64, max: i64) -> (r: i64)
    requires
        -0x100_0000_0000 <= min < max <= 0x100_0000_0000,
    ensures
        min <= r <= max,
{
    alea::i64_in_range(min, max)
}

} // verus!
