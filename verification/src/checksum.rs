//! CRC-32 (IEEE) checksums, computed by the `crc32fast` crate.

use vstd::prelude::*;

verus! {

/// The CRC-32 checksum of a byte sequence, as `crc32fast::hash` computes it.
pub uninterp spec fn crc32_of(data: Seq<u8>) -> u32;

/// `crc32fast::hash`: the CRC-32 of `data`. The contract only ties the result
/// to the bytes it was computed from; the checksum algorithm itself is the
/// crate's and is not restated here.
#[verifier::external_body]
pub fn crc32(data: &[u8]) -> (c: u32)
    ensures
        c == crc32_of(data@),
{
    crc32fast::hash(data)
}

} // verus!
