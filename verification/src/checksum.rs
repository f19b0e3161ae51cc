//! The 32-bit checksum that guards every record's payload.

use vstd::prelude::*;

verus! {

/// The CRC-32 (ISO-HDLC, the classic IEEE polynomial) checksum of a byte
/// sequence. The checksum depends on the bytes alone, so it gets a name
/// here rather than a page of polynomial arithmetic.
pub uninterp spec fn crc32_of(data: Seq<u8>) -> u32;

/// Relies on `crc::Crc::<u32>::checksum` with the `CRC_32_ISO_HDLC`
/// algorithm: the checksum is a pure function of the input bytes.
#[verifier::external_body]
pub(crate) fn crc32(data: &[u8]) -> (r: u32)
    ensures
        r == crc32_of(data@),
{
    crc::Crc::<u32>::new(&crc::CRC_32_ISO_HDLC).checksum(data)
}

} // verus!
