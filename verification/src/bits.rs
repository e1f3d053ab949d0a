//! Extraction of bit ranges from machine words.

use bit_field::BitField;
use vstd::prelude::*;

verus! {

/// The bits `start..end` of `value`, moved down so that bit `start` becomes
/// bit 0: the word is shifted right by `start` and only its low `end - start`
/// bits are kept.
pub open spec fn bit_range(value: u64, start: u64, end: u64) -> u64
    recommends
        start < end <= 64,
{
    (value >> start) & (0xffff_ffff_ffff_ffffu64 >> ((64 - (end - start)) as u64))
}

/// Calls `BitField::get_bits` of the `bit_field` crate on a `u64` with the
/// half-open range `start..end`. Trusted: the result is the bits `start..end`
/// of `value`, shifted down to bit 0. The crate panics where `start` is not
/// below 64, `end` is above 64 or `start` is above `end`; the precondition
/// leaves these out, and the empty range with them.
#[verifier::external_body]
pub(crate) fn get_bits(value: u64, start: usize, end: usize) -> (r: u64)
    requires
        start < end <= 64,
    ensures
        r == bit_range(value, start as u64, end as u64),
{
    value.get_bits(start..end)
}

} // verus!
