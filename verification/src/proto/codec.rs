//! Big-endian words: the 32-bit identifiers that the protocols write in
//! headers and the 64-bit lengths that frame a message on the wire.
use byteorder::{BigEndian, ByteOrder};
use vstd::prelude::*;

verus! {

/// The big-endian bytes of `n`.
pub open spec fn be_bytes(n: u32) -> Seq<u8> {
    seq![(n >> 24u32) as u8, (n >> 16u32) as u8, (n >> 8u32) as u8, n as u8]
}

/// The number whose big-endian bytes start `b`.
pub open spec fn be_u32(b: Seq<u8>) -> u32 {
    be_word(b[0], b[1], b[2], b[3])
}

pub open spec fn be_word(b0: u8, b1: u8, b2: u8, b3: u8) -> u32 {
    ((b0 as u32) << 24u32) | ((b1 as u32) << 16u32) | ((b2 as u32) << 8u32) | (b3 as u32)
}

/// Calls `byteorder::BigEndian::read_u32`, which reads the first four bytes
/// of `buf` as a big-endian number; this contract claims that of it, and
/// requires the four bytes, without which the call panics.
#[verifier::external_body]
pub(crate) fn read_u32_be(buf: &[u8]) -> (n: u32)
    requires
        buf@.len() >= 4,
    ensures
        n == be_u32(buf@),
{
    BigEndian::read_u32(buf)
}

/// Calls `byteorder::BigEndian::write_u32`, which writes `n` in big-endian
/// order over the four bytes of `buf`; this contract claims that of it.
#[verifier::external_body]
pub(crate) fn write_u32_be(buf: &mut [u8; 4], n: u32)
    ensures
        final(buf)@ == be_bytes(n),
{
    BigEndian::write_u32(&mut buf[..], n)
}

/// The big-endian bytes of `n`, in a vector.
pub fn u32_to_be_vec(n: u32) -> (v: Vec<u8>)
    ensures
        v@ == be_bytes(n),
{
    let mut bytes: [u8; 4] = [0u8; 4];
    write_u32_be(&mut bytes, n);
    let mut v: Vec<u8> = Vec::new();
    v.push(bytes[0]);
    v.push(bytes[1]);
    v.push(bytes[2]);
    v.push(bytes[3]);
    proof {
        assert(v@ =~= be_bytes(n));
    }
    v
}

/// Reading back what was written gives the number that was written.
pub proof fn lemma_be_round_trip(n: u32)
    ensures
        be_u32(be_bytes(n)) == n,
{
    let b0 = (n >> 24u32) as u8;
    let b1 = (n >> 16u32) as u8;
    let b2 = (n >> 8u32) as u8;
    let b3 = n as u8;
    assert(be_word(b0, b1, b2, b3) == n) by (bit_vector)
        requires
            b0 == (n >> 24u32) as u8,
            b1 == (n >> 16u32) as u8,
            b2 == (n >> 8u32) as u8,
            b3 == n as u8,
    ;
}

/// The number has its highest bit set exactly when its first byte does.
pub proof fn lemma_be_high_bit(b: Seq<u8>)
    requires
        b.len() >= 4,
    ensures
        (be_u32(b) >= 0x8000_0000) == (b[0] >= 0x80),
{
    let b0 = b[0];
    let b1 = b[1];
    let b2 = b[2];
    let b3 = b[3];
    assert((be_word(b0, b1, b2, b3) >= 0x8000_0000) == (b0 >= 0x80)) by (bit_vector);
}

/// The big-endian bytes of a 64-bit `n`.
pub open spec fn be_bytes64(n: u64) -> Seq<u8> {
    seq![
        (n >> 56u64) as u8,
        (n >> 48u64) as u8,
        (n >> 40u64) as u8,
        (n >> 32u64) as u8,
        (n >> 24u64) as u8,
        (n >> 16u64) as u8,
        (n >> 8u64) as u8,
        n as u8,
    ]
}

pub open spec fn be_dword(b0: u8, b1: u8, b2: u8, b3: u8, b4: u8, b5: u8, b6: u8, b7: u8) -> u64 {
    ((b0 as u64) << 56u64) | ((b1 as u64) << 48u64) | ((b2 as u64) << 40u64) | ((b3 as u64) << 32u64) | ((b4 as u64)
        << 24u64) | ((b5 as u64) << 16u64) | ((b6 as u64) << 8u64) | (b7 as u64)
}

/// The 64-bit number whose big-endian bytes start `b`.
pub open spec fn be_u64(b: Seq<u8>) -> u64 {
    be_dword(b[0], b[1], b[2], b[3], b[4], b[5], b[6], b[7])
}

/// Calls `byteorder::BigEndian::read_u64`, which reads the first eight
/// bytes of `buf` as a big-endian number; this contract claims that of it,
/// and requires the eight bytes, without which the call panics.
#[verifier::external_body]
pub(crate) fn read_u64_be(buf: &[u8]) -> (n: u64)
    requires
        buf@.len() >= 8,
    ensures
        n == be_u64(buf@),
{
    BigEndian::read_u64(buf)
}

/// Calls `byteorder::BigEndian::write_u64`, which writes `n` in big-endian
/// order over the eight bytes of `buf`; this contract claims that of it.
#[verifier::external_body]
pub(crate) fn write_u64_be(buf: &mut [u8; 8], n: u64)
    ensures
        final(buf)@ == be_bytes64(n),
{
    BigEndian::write_u64(&mut buf[..], n)
}

/// The big-endian bytes of a 64-bit `n`, in a vector.
pub fn u64_to_be_vec(n: u64) -> (v: Vec<u8>)
    ensures
        v@ == be_bytes64(n),
{
    let mut bytes: [u8; 8] = [0u8; 8];
    write_u64_be(&mut bytes, n);
    let mut v: Vec<u8> = Vec::new();
    let mut i: usize = 0;
    while i < 8
        invariant
            i <= 8,
            bytes@ == be_bytes64(n),
            v@ == bytes@.take(i as int),
        decreases 8 - i,
    {
        v.push(bytes[i]);
        i = i + 1;
        proof {
            assert(v@ =~= bytes@.take(i as int));
        }
    }
    proof {
        assert(bytes@.take(8) =~= bytes@);
    }
    v
}

/// Reading back what was written gives the 64-bit number that was written.
pub proof fn lemma_be64_round_trip(n: u64)
    ensures
        be_u64(be_bytes64(n)) == n,
{
    let b = be_bytes64(n);
    let (b0, b1, b2, b3, b4, b5, b6, b7) = (b[0], b[1], b[2], b[3], b[4], b[5], b[6], b[7]);
    assert(be_dword(b0, b1, b2, b3, b4, b5, b6, b7) == n) by (bit_vector)
        requires
            b0 == (n >> 56u64) as u8,
            b1 == (n >> 48u64) as u8,
            b2 == (n >> 40u64) as u8,
            b3 == (n >> 32u64) as u8,
            b4 == (n >> 24u64) as u8,
            b5 == (n >> 16u64) as u8,
            b6 == (n >> 8u64) as u8,
            b7 == n as u8,
    ;
}

} // verus!
