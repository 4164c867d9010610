//! Little-endian integers on the wire.

use vstd::prelude::*;

verus! {

/// The two bytes of `x`, least significant first.
pub open spec fn le_u16(x: u16) -> Seq<u8> {
    seq![(x % 256) as u8, (x / 256) as u8]
}

/// The four bytes of `x`, least significant first.
pub open spec fn le_u32(x: u32) -> Seq<u8> {
    seq![
        (x % 256) as u8,
        ((x / 256) % 256) as u8,
        ((x / 65536) % 256) as u8,
        (x / 16777216) as u8,
    ]
}

/// The integer whose little-endian bytes are the first two of `s`.
pub open spec fn from_le_u16(s: Seq<u8>) -> u16
    recommends
        s.len() >= 2,
{
    (s[0] + 256 * s[1]) as u16
}

/// The integer whose little-endian bytes are the first four of `s`.
pub open spec fn from_le_u32(s: Seq<u8>) -> u32
    recommends
        s.len() >= 4,
{
    (s[0] + 256 * s[1] + 65536 * s[2] + 16777216 * s[3]) as u32
}

/// The low 16 bits of a length, as they are written after the header.
pub open spec fn len_u16(len: int) -> u16 {
    (len % 65536) as u16
}

/// Bytes that may be absent, as a mathematical value.
pub open spec fn bytes_option_view(r: Option<Vec<u8>>) -> Option<Seq<u8>> {
    match r {
        Some(v) => Some(v@),
        None => None,
    }
}

proof fn lemma_split_u16(x: u16)
    by (bit_vector)
    ensures
        x % 256 + 256 * (x / 256) == x,
        x % 256 < 256,
        x / 256 < 256,
{
}

proof fn lemma_join_u16(b0: u8, b1: u8)
    by (bit_vector)
    ensures
        b0 + 256 * b1 <= 0xffff,
        (b0 + 256 * b1) % 256 == b0,
        (b0 + 256 * b1) / 256 == b1,
{
}

proof fn lemma_split_u32(x: u32)
    by (bit_vector)
    ensures
        x % 256 + 256 * ((x / 256) % 256) + 65536 * ((x / 65536) % 256) + 16777216 * (x
            / 16777216) == x,
        x % 256 < 256,
        (x / 256) % 256 < 256,
        (x / 65536) % 256 < 256,
        x / 16777216 < 256,
{
}

proof fn lemma_join_u32(b0: u8, b1: u8, b2: u8, b3: u8)
    by (bit_vector)
    ensures
        b0 + 256 * b1 + 65536 * b2 + 16777216 * b3 <= 0xffff_ffff,
        (b0 + 256 * b1 + 65536 * b2 + 16777216 * b3) % 256 == b0,
        ((b0 + 256 * b1 + 65536 * b2 + 16777216 * b3) / 256) % 256 == b1,
        ((b0 + 256 * b1 + 65536 * b2 + 16777216 * b3) / 65536) % 256 == b2,
        (b0 + 256 * b1 + 65536 * b2 + 16777216 * b3) / 16777216 == b3,
{
}

/// Decoding inverts encoding, for 16-bit integers.
pub proof fn lemma_le_u16_roundtrip(x: u16)
    ensures
        le_u16(x).len() == 2,
        from_le_u16(le_u16(x)) == x,
{
    lemma_split_u16(x);
}

/// Encoding inverts decoding, for two bytes.
pub proof fn lemma_from_le_u16_roundtrip(s: Seq<u8>)
    requires
        s.len() == 2,
    ensures
        le_u16(from_le_u16(s)) == s,
{
    lemma_join_u16(s[0], s[1]);
    assert(le_u16(from_le_u16(s)) =~= s);
}

/// Decoding inverts encoding, for 32-bit integers.
pub proof fn lemma_le_u32_roundtrip(x: u32)
    ensures
        le_u32(x).len() == 4,
        from_le_u32(le_u32(x)) == x,
{
    lemma_split_u32(x);
}

/// Encoding inverts decoding, for four bytes.
pub proof fn lemma_from_le_u32_roundtrip(s: Seq<u8>)
    requires
        s.len() == 4,
    ensures
        le_u32(from_le_u32(s)) == s,
{
    lemma_join_u32(s[0], s[1], s[2], s[3]);
    assert(le_u32(from_le_u32(s)) =~= s);
}

/// Distinct 32-bit integers have distinct encodings.
pub proof fn lemma_le_u32_injective(x: u32, y: u32)
    requires
        le_u32(x) == le_u32(y),
    ensures
        x == y,
{
    lemma_le_u32_roundtrip(x);
    lemma_le_u32_roundtrip(y);
}

/// Writes `x` as two little-endian bytes.
pub fn u16_to_le(x: u16) -> (b: [u8; 2])
    ensures
        b@ == le_u16(x),
{
    let b = [(x % 256) as u8, (x / 256) as u8];
    assert(b@ =~= le_u16(x));
    b
}

/// Writes `x` as four little-endian bytes.
pub fn u32_to_le(x: u32) -> (b: [u8; 4])
    ensures
        b@ == le_u32(x),
{
    let b = [
        (x % 256) as u8,
        ((x / 256) % 256) as u8,
        ((x / 65536) % 256) as u8,
        (x / 16777216) as u8,
    ];
    assert(b@ =~= le_u32(x));
    b
}

/// Reads two little-endian bytes.
pub fn u16_from_le(b0: u8, b1: u8) -> (x: u16)
    ensures
        x == from_le_u16(seq![b0, b1]),
{
    proof {
        lemma_join_u16(b0, b1);
    }
    let lo: u16 = b0 as u16;
    let hi: u16 = b1 as u16;
    lo + 256 * hi
}

/// Reads four little-endian bytes.
pub fn u32_from_le(b0: u8, b1: u8, b2: u8, b3: u8) -> (x: u32)
    ensures
        x == from_le_u32(seq![b0, b1, b2, b3]),
{
    proof {
        lemma_join_u32(b0, b1, b2, b3);
    }
    let w0: u32 = b0 as u32;
    let w1: u32 = b1 as u32;
    let w2: u32 = b2 as u32;
    let w3: u32 = b3 as u32;
    w0 + 256 * w1 + 65536 * w2 + 16777216 * w3
}

} // verus!
