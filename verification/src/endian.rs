//! Little-endian integers as they lie in a byte stream.
//!
//! The mathematical side is stated with plain arithmetic on the bytes; the
//! executable conversions are delegated to the `byteorder` crate.

use byteorder::{ByteOrder, LittleEndian};
use vstd::prelude::*;

verus! {

/// The 16-bit value whose least significant byte is `s[0]`.
#[verifier::opaque]
pub open spec fn le_u16(s: Seq<u8>) -> int
    recommends
        s.len() >= 2,
{
    s[0] as int + 0x100 * (s[1] as int)
}

/// The 32-bit value whose least significant byte is `s[0]`.
#[verifier::opaque]
pub open spec fn le_u32(s: Seq<u8>) -> int
    recommends
        s.len() >= 4,
{
    s[0] as int + 0x100 * (s[1] as int) + 0x1_0000 * (s[2] as int) + 0x100_0000 * (s[3] as int)
}

/// The two bytes of `n`, least significant first.
#[verifier::opaque]
pub open spec fn u16_le_bytes(n: u16) -> Seq<u8> {
    seq![(n % 0x100) as u8, (n / 0x100) as u8]
}

/// The four bytes of `n`, least significant first.
#[verifier::opaque]
pub open spec fn u32_le_bytes(n: u32) -> Seq<u8> {
    seq![
        (n % 0x100) as u8,
        (n / 0x100 % 0x100) as u8,
        (n / 0x1_0000 % 0x100) as u8,
        (n / 0x100_0000) as u8,
    ]
}

/// `count` zero bytes: what every reserved field of the format holds when written.
pub open spec fn zeros(count: nat) -> Seq<u8> {
    Seq::new(count, |i: int| 0u8)
}

/// Reading back the bytes of a 16-bit value gives that value, and a 16-bit
/// value read from two bytes is stored as exactly those two bytes.
pub proof fn lemma_u16_le_roundtrip(n: u16, s: Seq<u8>)
    ensures
        u16_le_bytes(n).len() == 2,
        le_u16(u16_le_bytes(n)) == n,
        0 <= le_u16(s) <= u16::MAX,
        s.len() == 2 ==> u16_le_bytes(le_u16(s) as u16) == s,
{
    reveal(le_u16);
    reveal(u16_le_bytes);
    if s.len() == 2 {
        assert(u16_le_bytes(le_u16(s) as u16) =~= s);
    }
}

/// Reading back the bytes of a 32-bit value gives that value, and a 32-bit
/// value read from four bytes is stored as exactly those four bytes.
pub proof fn lemma_u32_le_roundtrip(n: u32, s: Seq<u8>)
    ensures
        u32_le_bytes(n).len() == 4,
        le_u32(u32_le_bytes(n)) == n,
        0 <= le_u32(s) <= u32::MAX,
        s.len() == 4 ==> u32_le_bytes(le_u32(s) as u32) == s,
{
    reveal(le_u32);
    reveal(u32_le_bytes);
    let a: int = n as int / 0x100;
    let b: int = a / 0x100;
    let c: int = b / 0x100;
    assert(n as int / 0x1_0000 == b);
    assert(n as int / 0x100_0000 == c);
    assert(le_u32(u32_le_bytes(n)) == n);
    if s.len() == 4 {
        let v: int = le_u32(s);
        let hi: int = s[1] as int + 0x100 * (s[2] as int) + 0x1_0000 * (s[3] as int);
        assert(v == s[0] as int + 0x100 * hi);
        assert(v / 0x100 == hi);
        let hi2: int = s[2] as int + 0x100 * (s[3] as int);
        assert(hi == s[1] as int + 0x100 * hi2);
        assert(hi / 0x100 == hi2);
        assert(v / 0x1_0000 == hi2);
        assert(hi2 / 0x100 == s[3] as int);
        assert(v / 0x100_0000 == s[3] as int);
        assert(u32_le_bytes(v as u32) =~= s);
    }
}

/// `byteorder::LittleEndian::read_u16`: the value of the first two bytes of
/// `buf`, least significant byte first. The crate panics on a shorter buffer.
#[verifier::external_body]
pub(crate) fn read_u16_le(buf: &[u8]) -> (n: u16)
    requires
        buf@.len() >= 2,
    ensures
        n == le_u16(buf@),
{
    LittleEndian::read_u16(buf)
}

/// `byteorder::LittleEndian::read_u32`: the value of the first four bytes of
/// `buf`, least significant byte first. The crate panics on a shorter buffer.
#[verifier::external_body]
pub(crate) fn read_u32_le(buf: &[u8]) -> (n: u32)
    requires
        buf@.len() >= 4,
    ensures
        n == le_u32(buf@),
{
    LittleEndian::read_u32(buf)
}

/// `byteorder::LittleEndian::write_u16` on a two-byte buffer: the bytes of
/// `n`, least significant first.
#[verifier::external_body]
pub(crate) fn write_u16_le(n: u16) -> (out: [u8; 2])
    ensures
        out@ == u16_le_bytes(n),
{
    let mut out = [0u8; 2];
    LittleEndian::write_u16(&mut out, n);
    out
}

/// `byteorder::LittleEndian::write_u32` on a four-byte buffer: the bytes of
/// `n`, least significant first.
#[verifier::external_body]
pub(crate) fn write_u32_le(n: u32) -> (out: [u8; 4])
    ensures
        out@ == u32_le_bytes(n),
{
    let mut out = [0u8; 4];
    LittleEndian::write_u32(&mut out, n);
    out
}

/// The 16-bit little-endian value at `offset` in `bytes`.
pub fn u16_at(bytes: &[u8], offset: usize) -> (n: u16)
    requires
        offset + 2 <= bytes@.len(),
    ensures
        n == le_u16(bytes@.subrange(offset as int, offset + 2)),
{
    let _len: usize = bytes.len();
    read_u16_le(vstd::slice::slice_subrange(bytes, offset, offset + 2))
}

/// The 32-bit little-endian value at `offset` in `bytes`.
pub fn u32_at(bytes: &[u8], offset: usize) -> (n: u32)
    requires
        offset + 4 <= bytes@.len(),
    ensures
        n == le_u32(bytes@.subrange(offset as int, offset + 4)),
{
    let _len: usize = bytes.len();
    read_u32_le(vstd::slice::slice_subrange(bytes, offset, offset + 4))
}

/// Appends the two bytes of `n` to `out`.
pub fn put_u16(out: &mut Vec<u8>, n: u16)
    ensures
        final(out)@ == old(out)@ + u16_le_bytes(n),
{
    let bytes: [u8; 2] = write_u16_le(n);
    out.push(bytes[0]);
    out.push(bytes[1]);
    proof {
        lemma_u16_le_roundtrip(n, Seq::empty());
    }
    assert(out@ =~= old(out)@ + u16_le_bytes(n));
}

/// Appends the four bytes of `n` to `out`.
pub fn put_u32(out: &mut Vec<u8>, n: u32)
    ensures
        final(out)@ == old(out)@ + u32_le_bytes(n),
{
    let bytes: [u8; 4] = write_u32_le(n);
    out.push(bytes[0]);
    out.push(bytes[1]);
    out.push(bytes[2]);
    out.push(bytes[3]);
    proof {
        lemma_u32_le_roundtrip(n, Seq::empty());
    }
    assert(out@ =~= old(out)@ + u32_le_bytes(n));
}

/// Appends `count` zero bytes to `out`.
pub fn put_zeros(out: &mut Vec<u8>, count: usize)
    ensures
        final(out)@ == old(out)@ + zeros(count as nat),
{
    let mut i: usize = 0;
    while i < count
        invariant
            i <= count,
            out@ == old(out)@ + zeros(i as nat),
        decreases count - i,
    {
        out.push(0u8);
        i += 1;
        assert(out@ =~= old(out)@ + zeros(i as nat));
    }
}

/// Appends a copy of `src` to `out`.
pub fn put_bytes(out: &mut Vec<u8>, src: &[u8])
    ensures
        final(out)@ == old(out)@ + src@,
{
    let mut i: usize = 0;
    while i < src.len()
        invariant
            i <= src@.len(),
            out@ == old(out)@ + src@.take(i as int),
        decreases src@.len() - i,
    {
        out.push(src[i]);
        i += 1;
        assert(out@ =~= old(out)@ + src@.take(i as int));
    }
    assert(src@.take(src@.len() as int) =~= src@);
}

} // verus!
