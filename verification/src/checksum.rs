//! The CRC-32 checksum that protects every chunk.

use vstd::prelude::*;

verus! {

/// The CRC-32 (IEEE 802.3 polynomial) checksum of a byte sequence.
pub uninterp spec fn crc32_ieee(bytes: Seq<u8>) -> u32;

/// `crc::crc32::checksum_ieee` computes the CRC-32 of the whole slice with the
/// IEEE polynomial, from its table for that polynomial. It reads nothing but
/// the slice and cannot fail, so the same bytes always give the same sum:
/// `crc32_ieee` is the name of that sum. Nothing more is claimed of it.
#[verifier::external_body]
pub(crate) fn checksum_ieee(bytes: &[u8]) -> (sum: u32)
    ensures
        sum == crc32_ieee(bytes@),
{
    crc::crc32::checksum_ieee(bytes)
}

} // verus!
