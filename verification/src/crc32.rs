//! The CRC-32 checksum that guards every chunk record.

use vstd::prelude::*;

verus! {

/// The CRC-32 of `data` under the ISO-HDLC (IEEE 802.3) parameters.
/// The checksum is a fixed function of the bytes alone; its value on given
/// bytes is not axiomatized here, so a stored checksum can only be compared
/// with a recomputed one.
pub uninterp spec fn crc32_of(data: Seq<u8>) -> u32;

/// Relies on `crc::Crc::<u32>::checksum` with the fixed parameter set
/// `crc::CRC_32_ISO_HDLC`: a table-driven computation over the input bytes
/// alone, so equal inputs always give equal checksums.
#[verifier::external_body]
pub(crate) fn crc32_checksum(data: &[u8]) -> (r: u32)
    ensures
        r == crc32_of(data@),
{
    crc::Crc::<u32>::new(&crc::CRC_32_ISO_HDLC).checksum(data)
}

} // verus!
