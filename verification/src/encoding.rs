use vstd::prelude::*;
use vstd::utf8::{decode_utf8, valid_utf8};

verus! {

/// True for the byte value of an ASCII upper-case letter.
pub open spec fn is_upper(b: u8) -> bool {
    65 <= b <= 90
}

/// True for the byte value of an ASCII lower-case letter.
pub open spec fn is_lower(b: u8) -> bool {
    97 <= b <= 122
}

/// True for the byte value of an ASCII letter.
pub open spec fn is_alpha(b: u8) -> bool {
    is_upper(b) || is_lower(b)
}

/// The four-byte big-endian encoding of a 32-bit value.
pub open spec fn be32(x: u32) -> Seq<u8> {
    seq![
        ((x >> 24) & 0xff) as u8,
        ((x >> 16) & 0xff) as u8,
        ((x >> 8) & 0xff) as u8,
        (x & 0xff) as u8,
    ]
}

/// The 32-bit value read from four bytes in big-endian order.
pub open spec fn u32_be(s: Seq<u8>) -> u32
    recommends
        s.len() == 4,
{
    ((s[0] as u32) << 24) | ((s[1] as u32) << 16) | ((s[2] as u32) << 8) | (s[3] as u32)
}

pub proof fn lemma_u32_be_of_be32(x: u32)
    ensures
        u32_be(be32(x)) == x,
{
    let s = be32(x);
    assert(s[0] == ((x >> 24) & 0xff) as u8);
    assert(s[1] == ((x >> 16) & 0xff) as u8);
    assert(s[2] == ((x >> 8) & 0xff) as u8);
    assert(s[3] == (x & 0xff) as u8);
    assert((((((x >> 24) & 0xff) as u8) as u32) << 24) | (((((x >> 16) & 0xff) as u8) as u32)
        << 16) | (((((x >> 8) & 0xff) as u8) as u32) << 8) | (((x & 0xff) as u8) as u32) == x)
        by (bit_vector);
}

pub proof fn lemma_be32_of_u32_be(s: Seq<u8>)
    requires
        s.len() == 4,
    ensures
        be32(u32_be(s)) == s,
{
    let x = u32_be(s);
    let b0 = s[0];
    let b1 = s[1];
    let b2 = s[2];
    let b3 = s[3];
    let y = ((b0 as u32) << 24) | ((b1 as u32) << 16) | ((b2 as u32) << 8) | (b3 as u32);
    assert(((y >> 24) & 0xff) as u8 == b0 && ((y >> 16) & 0xff) as u8 == b1 && ((y >> 8) & 0xff)
        as u8 == b2 && (y & 0xff) as u8 == b3) by (bit_vector)
        requires
            y == ((b0 as u32) << 24) | ((b1 as u32) << 16) | ((b2 as u32) << 8) | (b3 as u32),
    ;
    assert(be32(x) =~= s);
}

/// Writes a 32-bit value as four big-endian bytes.
pub fn u32_to_be_bytes(x: u32) -> (r: [u8; 4])
    ensures
        r@ == be32(x),
{
    let r: [u8; 4] = [
        ((x >> 24) & 0xff) as u8,
        ((x >> 16) & 0xff) as u8,
        ((x >> 8) & 0xff) as u8,
        (x & 0xff) as u8,
    ];
    proof {
        assert(r@ =~= be32(x));
    }
    r
}

/// Reads a 32-bit value from four big-endian bytes.
pub fn u32_from_be_bytes(s: &[u8]) -> (x: u32)
    requires
        s@.len() == 4,
    ensures
        x == u32_be(s@),
{
    ((s[0] as u32) << 24) | ((s[1] as u32) << 16) | ((s[2] as u32) << 8) | (s[3] as u32)
}

/// The CRC-32 checksum (the ISO 3309 polynomial, as PNG uses) of a byte
/// sequence. What the checksum is on given bytes is not stated here; it is
/// whatever the reference algorithm computes.
pub uninterp spec fn crc32_of(bytes: Seq<u8>) -> u32;

/// Relies on crc32fast::hash: the CRC-32 (ISO 3309) of the bytes, a pure
/// function of the bytes alone.
#[verifier::external_body]
pub(crate) fn crc32(bytes: &[u8]) -> (r: u32)
    ensures
        r == crc32_of(bytes@),
{
    crc32fast::hash(bytes)
}

/// Relies on String::from_utf8: returns the string whose character sequence
/// the bytes encode when they are valid UTF-8, and fails otherwise.
#[verifier::external_body]
pub(crate) fn string_from_utf8(bytes: Vec<u8>) -> (r: Option<String>)
    ensures
        r is Some <==> valid_utf8(bytes@),
        r matches Some(s) ==> s@ == decode_utf8(bytes@),
{
    String::from_utf8(bytes).ok()
}

/// A sequence of bytes below 0x80 is valid UTF-8 and decodes to the
/// characters those bytes spell.
pub proof fn lemma_ascii_bytes_utf8(bytes: Seq<u8>)
    requires
        forall|i: int| 0 <= i < bytes.len() ==> bytes[i] < 0x80,
    ensures
        valid_utf8(bytes),
        decode_utf8(bytes) == Seq::new(bytes.len(), |i: int| bytes[i] as char),
    decreases bytes.len(),
{
    if bytes.len() == 0 {
        assert(decode_utf8(bytes) =~= Seq::new(bytes.len(), |i: int| bytes[i] as char));
    } else {
        let b = bytes[0];
        assert(vstd::utf8::is_leading_byte_width_1(b));
        assert((b & 0x7f) as u32 == b as u32) by (bit_vector)
            requires
                b < 0x80,
        ;
        assert(vstd::utf8::valid_first_scalar(bytes));
        assert(vstd::utf8::pop_first_scalar(bytes) == bytes.subrange(1, bytes.len() as int));
        let rest = bytes.subrange(1, bytes.len() as int);
        lemma_ascii_bytes_utf8(rest);
        assert(vstd::utf8::decode_first_scalar(bytes) == b as u32);
        assert(decode_utf8(bytes) =~= Seq::new(bytes.len(), |i: int| bytes[i] as char));
    }
}

} // verus!
