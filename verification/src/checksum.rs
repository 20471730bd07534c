//! CRC-32 (IEEE) of a byte string, computed by the `crc32fast` crate.

use vstd::prelude::*;

verus! {

/// The CRC-32 (IEEE polynomial) checksum of `data`.
pub uninterp spec fn crc32_ieee(data: Seq<u8>) -> u32;

/// Calls `crc32fast::hash`. Trusted: the result is taken to be the CRC-32 of
/// the bytes handed in, and the same for the same bytes every time.
#[verifier::external_body]
pub(crate) fn crc32(data: &[u8]) -> (r: u32)
    ensures
        r == crc32_ieee(data@),
{
    crc32fast::hash(data)
}

} // verus!
