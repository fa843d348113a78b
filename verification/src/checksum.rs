//! The checksum that protects a chunk.

use crc::{Crc, CRC_32_ISO_HDLC};
use vstd::prelude::*;

verus! {

/// The CRC-32/ISO-HDLC checksum of a byte string, as the `crc` crate computes
/// it: the 32-bit CRC of zlib and PNG.
pub uninterp spec fn crc32_iso_hdlc(bytes: Seq<u8>) -> u32;

/// Builds `crc::Crc::<u32>` for `CRC_32_ISO_HDLC` and calls its `checksum` on
/// the bytes. The result depends on the bytes alone; nothing else is claimed
/// of it.
#[verifier::external_body]
pub(crate) fn crc32_checksum(bytes: &[u8]) -> (r: u32)
    ensures
        r == crc32_iso_hdlc(bytes@),
{
    Crc::<u32>::new(&CRC_32_ISO_HDLC).checksum(bytes)
}

} // verus!
