//! Big-endian integers as they stand in the byte stream.
use vstd::prelude::*;

verus! {

/// The two bytes of an unsigned 16-bit number, high byte first.
pub open spec fn spec_u16_be(n: u16) -> Seq<u8> {
    seq![(n / 256) as u8, (n % 256) as u8]
}

/// The unsigned 16-bit number that two bytes spell, high byte first.
pub open spec fn spec_u16_from(b0: u8, b1: u8) -> u16 {
    (b0 * 256 + b1) as u16
}

/// The number spelled by the two bytes of `s` at `pos`.
pub open spec fn spec_u16_at(s: Seq<u8>, pos: int) -> u16
    recommends
        0 <= pos,
        pos + 2 <= s.len(),
{
    spec_u16_from(s[pos], s[pos + 1])
}

/// A length as it is written into a two-byte length field.
pub open spec fn spec_len16(n: nat) -> u16 {
    (n % 0x1_0000) as u16
}

/// The four bytes of an unsigned 32-bit number, high byte first.
pub open spec fn spec_u32_be(n: u32) -> Seq<u8> {
    seq![
        (n / 0x100_0000) as u8,
        ((n / 0x1_0000) % 256) as u8,
        ((n / 0x100) % 256) as u8,
        (n % 256) as u8,
    ]
}

/// The unsigned 32-bit number that four bytes spell, high byte first.
pub open spec fn spec_u32_from(b0: u8, b1: u8, b2: u8, b3: u8) -> u32 {
    (b0 * 0x100_0000 + b1 * 0x1_0000 + b2 * 0x100 + b3) as u32
}

/// The number spelled by the four bytes of `s` at `pos`.
pub open spec fn spec_u32_at(s: Seq<u8>, pos: int) -> u32
    recommends
        0 <= pos,
        pos + 4 <= s.len(),
{
    spec_u32_from(s[pos], s[pos + 1], s[pos + 2], s[pos + 3])
}

/// The two's-complement bit pattern of a signed 32-bit number.
pub open spec fn spec_i32_bits(x: i32) -> u32 {
    if x >= 0 {
        x as u32
    } else {
        (x + 0x1_0000_0000) as u32
    }
}

/// The signed number that a 32-bit two's-complement pattern stands for.
pub open spec fn spec_i32_from_bits(u: u32) -> i32 {
    if u < 0x8000_0000 {
        u as i32
    } else {
        (u - 0x1_0000_0000) as i32
    }
}

/// The four bytes of a signed 32-bit number in two's complement, high byte
/// first.
pub open spec fn spec_i32_be(x: i32) -> Seq<u8> {
    spec_u32_be(spec_i32_bits(x))
}

/// The signed number spelled by the four bytes of `s` at `pos`.
pub open spec fn spec_i32_at(s: Seq<u8>, pos: int) -> i32
    recommends
        0 <= pos,
        pos + 4 <= s.len(),
{
    spec_i32_from_bits(spec_u32_at(s, pos))
}

/// Reading back the two bytes of a 16-bit number gives the number.
pub proof fn lemma_u16_roundtrip(n: u16)
    ensures
        spec_u16_be(n).len() == 2,
        spec_u16_at(spec_u16_be(n), 0) == n,
{
}

/// Reading back the four bytes of a 32-bit number gives the number.
pub proof fn lemma_u32_roundtrip(n: u32)
    ensures
        spec_u32_be(n).len() == 4,
        spec_u32_at(spec_u32_be(n), 0) == n,
{
}

/// Reading back the four bytes of a signed number gives the number.
pub proof fn lemma_i32_roundtrip(x: i32)
    ensures
        spec_i32_be(x).len() == 4,
        spec_i32_at(spec_i32_be(x), 0) == x,
{
    lemma_u32_roundtrip(spec_i32_bits(x));
}

/// Appends the two bytes of `n`.
pub fn put_u16(out: &mut Vec<u8>, n: u16)
    ensures
        final(out)@ == old(out)@ + spec_u16_be(n),
{
    out.push((n / 256) as u8);
    out.push((n % 256) as u8);
    assert(out@ =~= old(out)@ + spec_u16_be(n));
}

/// Appends the four bytes of `n`.
pub fn put_u32(out: &mut Vec<u8>, n: u32)
    ensures
        final(out)@ == old(out)@ + spec_u32_be(n),
{
    out.push((n / 0x100_0000) as u8);
    out.push(((n / 0x1_0000) % 256) as u8);
    out.push(((n / 0x100) % 256) as u8);
    out.push((n % 256) as u8);
    assert(out@ =~= old(out)@ + spec_u32_be(n));
}

/// The bit pattern of `x`.
pub fn i32_bits(x: i32) -> (u: u32)
    ensures
        u == spec_i32_bits(x),
{
    let u: u32 = x as u32;
    assert(x >= 0 ==> x as u32 == x) by (bit_vector);
    assert(x < 0 ==> (x as u32) == (x + 0x1_0000_0000) as u32) by (bit_vector);
    u
}

/// The signed number behind the bit pattern `u`.
pub fn i32_from_bits(u: u32) -> (x: i32)
    ensures
        x == spec_i32_from_bits(u),
{
    if u < 0x8000_0000 {
        u as i32
    } else {
        let low: u32 = u - 0x8000_0000;
        let x: i32 = (low as i32) - 0x4000_0000 - 0x4000_0000;
        x
    }
}

/// Appends the four bytes of `x`.
pub fn put_i32(out: &mut Vec<u8>, x: i32)
    ensures
        final(out)@ == old(out)@ + spec_i32_be(x),
{
    put_u32(out, i32_bits(x));
}

/// Appends the bytes of `data`.
pub fn put_slice(out: &mut Vec<u8>, data: &[u8])
    ensures
        final(out)@ == old(out)@ + data@,
{
    let mut i: usize = 0;
    while i < data.len()
        invariant
            0 <= i <= data@.len(),
            out@ == old(out)@ + data@.subrange(0, i as int),
        decreases data@.len() - i,
    {
        out.push(data[i]);
        i += 1;
        assert(out@ =~= old(out)@ + data@.subrange(0, i as int));
    }
    assert(data@.subrange(0, i as int) =~= data@);
}

/// Appends `data` behind its length in two bytes. A length that does not fit
/// is written modulo 65536.
pub fn put_len16(out: &mut Vec<u8>, len: usize)
    ensures
        final(out)@ == old(out)@ + spec_u16_be(spec_len16(len as nat)),
{
    put_u16(out, (len % 0x1_0000) as u16);
}

/// Reads the 16-bit number at `pos`.
pub(crate) fn get_u16(data: &[u8], pos: usize) -> (n: u16)
    requires
        pos + 2 <= data@.len(),
    ensures
        n == spec_u16_at(data@, pos as int),
{
    let hi: u16 = data[pos] as u16;
    let lo: u16 = data[pos + 1] as u16;
    hi * 256 + lo
}

/// Reads the 32-bit number at `pos`.
pub(crate) fn get_u32(data: &[u8], pos: usize) -> (n: u32)
    requires
        pos + 4 <= data@.len(),
    ensures
        n == spec_u32_at(data@, pos as int),
{
    let b0: u32 = data[pos] as u32;
    let b1: u32 = data[pos + 1] as u32;
    let b2: u32 = data[pos + 2] as u32;
    let b3: u32 = data[pos + 3] as u32;
    b0 * 0x100_0000 + b1 * 0x1_0000 + b2 * 0x100 + b3
}

/// Reads the signed 32-bit number at `pos`.
pub(crate) fn get_i32(data: &[u8], pos: usize) -> (x: i32)
    requires
        pos + 4 <= data@.len(),
    ensures
        x == spec_i32_at(data@, pos as int),
{
    i32_from_bits(get_u32(data, pos))
}

} // verus!
