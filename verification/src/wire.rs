//! Byte-level helpers for the wire format: big-endian 32-bit fields and the
//! CRC-32 checksum that guards each record.

use vstd::prelude::*;

verus! {

/// The four big-endian bytes of `x`, most significant first.
pub open spec fn spec_u32_to_be_bytes(x: u32) -> Seq<u8> {
    seq![
        ((x >> 24) & 0xff) as u8,
        ((x >> 16) & 0xff) as u8,
        ((x >> 8) & 0xff) as u8,
        (x & 0xff) as u8,
    ]
}

/// The value read big-endian from four bytes, most significant first.
pub open spec fn spec_u32_from_be_bytes(s: Seq<u8>) -> u32
    recommends
        s.len() == 4,
{
    ((s[0] as u32) << 24) | ((s[1] as u32) << 16) | ((s[2] as u32) << 8) | (s[3] as u32)
}

/// Reading back the big-endian bytes of `x` yields `x` again.
pub proof fn lemma_u32_be_bytes_round_trip(x: u32)
    ensures
        spec_u32_to_be_bytes(x).len() == 4,
        spec_u32_from_be_bytes(spec_u32_to_be_bytes(x)) == x,
{
    let b0 = ((x >> 24) & 0xff) as u8;
    let b1 = ((x >> 16) & 0xff) as u8;
    let b2 = ((x >> 8) & 0xff) as u8;
    let b3 = (x & 0xff) as u8;
    assert(((b0 as u32) << 24) | ((b1 as u32) << 16) | ((b2 as u32) << 8) | (b3 as u32) == x) by {
        assert(((((x >> 24) & 0xff) as u8 as u32) << 24) | ((((x >> 16) & 0xff) as u8 as u32)
            << 16) | ((((x >> 8) & 0xff) as u8 as u32) << 8) | ((x & 0xff) as u8 as u32) == x)
            by (bit_vector);
    }
}

/// Re-encoding the value read from four bytes yields those bytes again:
/// together with the round trip above, the encoding is a bijection.
pub proof fn lemma_u32_be_bytes_injective(s: Seq<u8>)
    requires
        s.len() == 4,
    ensures
        spec_u32_to_be_bytes(spec_u32_from_be_bytes(s)) == s,
{
    let x = spec_u32_from_be_bytes(s);
    let s0 = s[0];
    let s1 = s[1];
    let s2 = s[2];
    let s3 = s[3];
    assert(x == ((s0 as u32) << 24) | ((s1 as u32) << 16) | ((s2 as u32) << 8) | (s3 as u32));
    assert({
        &&& ((x >> 24) & 0xff) as u8 == s0
        &&& ((x >> 16) & 0xff) as u8 == s1
        &&& ((x >> 8) & 0xff) as u8 == s2
        &&& (x & 0xff) as u8 == s3
    }) by {
        assert((x == ((s0 as u32) << 24) | ((s1 as u32) << 16) | ((s2 as u32) << 8) | (s3 as u32))
            ==> {
            &&& ((x >> 24) & 0xff) as u8 == s0
            &&& ((x >> 16) & 0xff) as u8 == s1
            &&& ((x >> 8) & 0xff) as u8 == s2
            &&& (x & 0xff) as u8 == s3
        }) by (bit_vector);
    }
    assert(spec_u32_to_be_bytes(x) =~= s);
}

/// Appends the big-endian bytes of `x` to `out`.
pub fn push_u32_be_bytes(out: &mut Vec<u8>, x: u32)
    ensures
        final(out)@ == old(out)@ + spec_u32_to_be_bytes(x),
{
    proof {
        assert({
            &&& (x >> 24) & 0xff < 256
            &&& (x >> 16) & 0xff < 256
            &&& (x >> 8) & 0xff < 256
            &&& x & 0xff < 256
        }) by (bit_vector);
    }
    out.push(((x >> 24) & 0xff) as u8);
    out.push(((x >> 16) & 0xff) as u8);
    out.push(((x >> 8) & 0xff) as u8);
    out.push((x & 0xff) as u8);
    assert(out@ =~= old(out)@ + spec_u32_to_be_bytes(x));
}

/// Reads a big-endian value from four bytes of `b` starting at `off`.
pub fn read_u32_be_bytes(b: &[u8], off: usize) -> (r: u32)
    requires
        off + 4 <= b@.len(),
    ensures
        r == spec_u32_from_be_bytes(b@.subrange(off as int, off + 4)),
{
    let r = ((b[off] as u32) << 24) | ((b[off + 1] as u32) << 16) | ((b[off + 2] as u32) << 8) | (
    b[off + 3] as u32);
    assert(b@.subrange(off as int, off + 4)[0] == b@[off as int]);
    assert(b@.subrange(off as int, off + 4)[1] == b@[off + 1]);
    assert(b@.subrange(off as int, off + 4)[2] == b@[off + 2]);
    assert(b@.subrange(off as int, off + 4)[3] == b@[off + 3]);
    r
}

/// The ISO-HDLC CRC-32 of a byte sequence, as the checksum field of a
/// record stores it. Its value is given only by the checksum routine of
/// the `crc` crate; the contracts here treat it as an opaque function of
/// the bytes.
pub uninterp spec fn crc32_of(bytes: Seq<u8>) -> u32;

/// Relies on `crc::Crc::<u32>::new(&CRC_32_ISO_HDLC).checksum`: the
/// ISO-HDLC CRC-32 (the polynomial zlib uses), a pure table-driven
/// computation whose result depends on the input bytes alone.
#[verifier::external_body]
pub(crate) fn crc32_checksum(bytes: &[u8]) -> (r: u32)
    ensures
        r == crc32_of(bytes@),
{
    crc::Crc::<u32>::new(&crc::CRC_32_ISO_HDLC).checksum(bytes)
}

} // verus!
