//! The CRC-32 used to guard the signature record and the metadata slots.

use vstd::prelude::*;

verus! {

/// The CRC-32 (IEEE) of a byte sequence.  The algorithm is the outside
/// crate's; only that it is a function of the bytes alone is relied on.
pub uninterp spec fn crc32_of(bytes: Seq<u8>) -> u32;

/// Relies on `crc::crc32::checksum_ieee`: the CRC-32 (IEEE polynomial) of
/// the bytes, a pure function of its argument.
#[verifier::external_body]
pub fn checksum_ieee(bytes: &[u8]) -> (r: u32)
    ensures
        r == crc32_of(bytes@),
{
    crc::crc32::checksum_ieee(bytes)
}

} // verus!
