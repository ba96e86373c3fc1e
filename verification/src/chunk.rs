//! PNG chunk framing: big-endian fields, the checksum, the compressor.

use vstd::prelude::*;

verus! {

/// The CRC-32 checksum of a byte sequence, as `crc32fast` computes it.
pub uninterp spec fn crc32(data: Seq<u8>) -> u32;

/// The zlib stream that `deflate` produces for a byte sequence at its best compression level.
pub uninterp spec fn zlib_best(data: Seq<u8>) -> Seq<u8>;

/// Calls `crc32fast::hash`. Trusted: the result is the crate's CRC-32 of exactly these bytes,
/// a function of the bytes alone.
#[verifier::external_body]
fn checksum(data: &[u8]) -> (sum: u32)
    ensures
        sum == crc32(data@),
{
    crc32fast::hash(data)
}

/// Calls `deflate::deflate_bytes_zlib_conf` with `Compression::Best`. Trusted: the result is
/// the crate's zlib stream for exactly these bytes, a function of the bytes alone.
#[verifier::external_body]
pub(crate) fn compress(data: &[u8]) -> (out: Vec<u8>)
    ensures
        out@ == zlib_best(data@),
{
    deflate::deflate_bytes_zlib_conf(data, deflate::Compression::Best)
}

/// The two bytes of `x`, most significant first.
pub open spec fn be16(x: u16) -> Seq<u8> {
    seq![(x / 0x100) as u8, (x % 0x100) as u8]
}

/// The four bytes of `x`, most significant first.
pub open spec fn be32(x: u32) -> Seq<u8> {
    seq![
        (x / 0x100_0000) as u8,
        (x / 0x1_0000 % 0x100) as u8,
        (x / 0x100 % 0x100) as u8,
        (x % 0x100) as u8,
    ]
}

/// A chunk as it stands in the stream. `data` is the four bytes of the chunk's type followed
/// by its payload: the length field counts the payload alone, the checksum covers all of
/// `data`.
pub open spec fn chunk_bytes(data: Seq<u8>) -> Seq<u8> {
    be32((data.len() - 4) as u32) + data + be32(crc32(data))
}

/// Whether `data`, a chunk's type and payload, has a payload that the length field can hold.
pub open spec fn chunk_fits(data: Seq<u8>) -> bool {
    4 <= data.len() <= 4 + u32::MAX
}

/// Appends `src` to `out`.
pub fn extend(out: &mut Vec<u8>, src: &[u8])
    ensures
        final(out)@ == old(out)@ + src@,
{
    let mut i: usize = 0;
    while i < src.len()
        invariant
            i <= src@.len(),
            out@ == old(out)@ + src@.subrange(0, i as int),
        decreases src@.len() - i,
    {
        out.push(src[i]);
        i += 1;
        assert(out@ =~= old(out)@ + src@.subrange(0, i as int));
    }
    assert(src@.subrange(0, i as int) =~= src@);
}

/// Appends the two bytes of `x`, most significant first.
pub fn push_be16(out: &mut Vec<u8>, x: u16)
    ensures
        final(out)@ == old(out)@ + be16(x),
{
    out.push((x / 0x100) as u8);
    out.push((x % 0x100) as u8);
    assert(out@ =~= old(out)@ + be16(x));
}

/// Appends the four bytes of `x`, most significant first.
pub fn push_be32(out: &mut Vec<u8>, x: u32)
    ensures
        final(out)@ == old(out)@ + be32(x),
{
    out.push((x / 0x100_0000) as u8);
    out.push((x / 0x1_0000 % 0x100) as u8);
    out.push((x / 0x100 % 0x100) as u8);
    out.push((x % 0x100) as u8);
    assert(out@ =~= old(out)@ + be32(x));
}

/// Frames a chunk: the payload's length, then `data` (type and payload), then the CRC-32 of
/// `data`.
pub fn write_chunk(data: &[u8]) -> (out: Vec<u8>)
    requires
        chunk_fits(data@),
    ensures
        out@ == chunk_bytes(data@),
{
    let mut out: Vec<u8> = Vec::new();
    push_be32(&mut out, (data.len() - 4) as u32);
    extend(&mut out, data);
    push_be32(&mut out, checksum(data));
    out
}

/// Frames a chunk as [`write_chunk`] does and appends it to `out`, unless the payload is
/// too long for the length field: then `out` stays as it is and the result is `false`.
pub fn append_chunk(out: &mut Vec<u8>, data: &[u8]) -> (done: bool)
    requires
        data@.len() >= 4,
    ensures
        done == chunk_fits(data@),
        done ==> final(out)@ == old(out)@ + chunk_bytes(data@),
        !done ==> final(out)@ == old(out)@,
{
    if data.len() - 4 > u32::MAX as usize {
        return false;
    }
    let framed = write_chunk(data);
    extend(out, framed.as_slice());
    true
}

} // verus!
