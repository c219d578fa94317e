use crate::error::{SaveError, SaveResult};
use vstd::prelude::*;

verus! {

/// One bit step of the reflected CRC-32 register (IEEE 802.3 polynomial,
/// reversed: `0xEDB88320`).
pub open spec fn crc32_bit(c: u32) -> u32 {
    if c & 1 == 1 {
        (c >> 1) ^ 0xEDB8_8320u32
    } else {
        c >> 1
    }
}

/// The CRC-32 register after feeding it byte `b`, low bit first.
pub open spec fn crc32_byte(c: u32, b: u8) -> u32 {
    let x0 = c ^ (b as u32);
    let x1 = crc32_bit(x0);
    let x2 = crc32_bit(x1);
    let x3 = crc32_bit(x2);
    let x4 = crc32_bit(x3);
    let x5 = crc32_bit(x4);
    let x6 = crc32_bit(x5);
    let x7 = crc32_bit(x6);
    crc32_bit(x7)
}

/// The CRC-32 register after feeding it `data`, starting from all ones.
pub open spec fn crc32_register(data: Seq<u8>) -> u32
    decreases data.len(),
{
    if data.len() == 0 {
        0xFFFF_FFFFu32
    } else {
        crc32_byte(crc32_register(data.drop_last()), data.last())
    }
}

/// The CRC-32 (IEEE, as in zlib and PNG) checksum of `data`: the final
/// register, inverted.
pub open spec fn crc32_of(data: Seq<u8>) -> u32 {
    crc32_register(data) ^ 0xFFFF_FFFFu32
}

/// Compute the CRC32 checksum of `data`.
///
/// Calls `crc32fast::hash`, which computes the standard CRC-32 (IEEE); its
/// contract claims that the result is that checksum of these bytes,
/// `crc32_of(data@)`.
#[verifier::external_body]
pub fn crc32(data: &[u8]) -> (crc: u32)
    ensures
        crc == crc32_of(data@),
{
    crc32fast::hash(data)
}

/// Verify that `expected` is the CRC32 checksum of `data`.
///
/// Fails with `Crc32Mismatch { expected, got }`, `got` being the checksum of
/// `data`, exactly when the two differ.
pub fn verify_crc32(data: &[u8], expected: u32) -> (res: SaveResult<()>)
    ensures
        crc32_of(data@) == expected <==> res is Ok,
        crc32_of(data@) != expected ==> (res matches Err(SaveError::Crc32Mismatch { expected: e, got: g })
            && e == expected && g == crc32_of(data@)),
{
    let got = crc32(data);
    if got != expected {
        Err(SaveError::Crc32Mismatch { expected, got })
    } else {
        Ok(())
    }
}

} // verus!
