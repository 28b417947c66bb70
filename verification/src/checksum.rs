//! The checksum that ties a payload to the version of the protocol that sent it.
use vstd::prelude::*;

verus! {

/// The CRC-32 of `bytes` with the IEEE polynomial, as the `crc` crate computes it.
pub uninterp spec fn crc32_ieee(bytes: Seq<u8>) -> u32;

/// `crc::crc32::checksum_ieee`: the CRC-32 of the bytes, which depends on them alone.
pub assume_specification[ crc::crc32::checksum_ieee ](bytes: &[u8]) -> (sum: u32)
    ensures
        sum == crc32_ieee(bytes@),
;

/// The checksum of `payload` under the protocol version `version`: the CRC-32 of the
/// version's bytes followed by the payload. Two ends that speak different versions
/// compute different checksums for the same payload.
pub fn calc_checksum(version: &[u8], payload: &[u8]) -> (sum: u32)
    ensures
        sum == crc32_ieee(version@ + payload@),
{
    let mut bytes: Vec<u8> = Vec::with_capacity(0);
    let mut i: usize = 0;
    while i < version.len()
        invariant
            0 <= i <= version@.len(),
            bytes@ == version@.take(i as int),
        decreases version@.len() - i,
    {
        bytes.push(version[i]);
        assert(bytes@ =~= version@.take(i as int + 1));
        i = i + 1;
    }
    assert(version@.take(version@.len() as int) =~= version@);
    let mut j: usize = 0;
    while j < payload.len()
        invariant
            0 <= j <= payload@.len(),
            bytes@ == version@ + payload@.take(j as int),
        decreases payload@.len() - j,
    {
        bytes.push(payload[j]);
        assert(bytes@ =~= version@ + payload@.take(j as int + 1));
        j = j + 1;
    }
    assert(payload@.take(payload@.len() as int) =~= payload@);
    crc::crc32::checksum_ieee(bytes.as_slice())
}

} // verus!
