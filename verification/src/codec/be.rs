//! Fixed-width big-endian integers: the encoding whose byte-lexicographic
//! order is the order of the numbers.

use crate::lex::{bytes_lt, lt_from};
use vstd::prelude::*;

verus! {

/// Byte `k` of `x`, counted from the least significant one.
pub open spec fn byte_of(x: u64, k: u64) -> u8 {
    ((x >> (8 * k)) & 0xff) as u8
}

/// The eight bytes of `x`, most significant first.
pub open spec fn be64(x: u64) -> Seq<u8> {
    seq![
        byte_of(x, 7),
        byte_of(x, 6),
        byte_of(x, 5),
        byte_of(x, 4),
        byte_of(x, 3),
        byte_of(x, 2),
        byte_of(x, 1),
        byte_of(x, 0),
    ]
}

/// The number whose big-endian bytes are the first eight of `b`.
pub open spec fn from_be64(b: Seq<u8>) -> u64 {
    (b[0] as u64) << 56 | (b[1] as u64) << 48 | (b[2] as u64) << 40 | (b[3] as u64) << 32 | (
    b[4] as u64) << 24 | (b[5] as u64) << 16 | (b[6] as u64) << 8 | (b[7] as u64)
}

/// The four bytes of `x`, most significant first.
pub open spec fn be32(x: u32) -> Seq<u8> {
    seq![byte_of(x as u64, 3), byte_of(x as u64, 2), byte_of(x as u64, 1), byte_of(x as u64, 0)]
}

/// The number whose big-endian bytes are the first four of `b`.
pub open spec fn from_be32(b: Seq<u8>) -> u32 {
    ((b[0] as u32) << 24 | (b[1] as u32) << 16 | (b[2] as u32) << 8 | (b[3] as u32))
}

/// Decoding undoes encoding.
pub proof fn lemma_be64_round_trip(x: u64)
    ensures
        be64(x).len() == 8,
        from_be64(be64(x)) == x,
{
    assert((((x >> 56) & 0xff) as u8 as u64) << 56 | (((x >> 48) & 0xff) as u8 as u64) << 48 | (((x
        >> 40) & 0xff) as u8 as u64) << 40 | (((x >> 32) & 0xff) as u8 as u64) << 32 | (((x >> 24)
        & 0xff) as u8 as u64) << 24 | (((x >> 16) & 0xff) as u8 as u64) << 16 | (((x >> 8) & 0xff) as u8 as u64)
        << 8 | (((x >> 0) & 0xff) as u8 as u64) == x) by (bit_vector);
}

/// Encoding undoes decoding: eight bytes are the encoding of the number
/// that they stand for.
pub proof fn lemma_be64_canonical(b: Seq<u8>)
    requires
        b.len() >= 8,
    ensures
        be64(from_be64(b)) == b.subrange(0, 8),
{
    let b0 = b[0];
    let b1 = b[1];
    let b2 = b[2];
    let b3 = b[3];
    let b4 = b[4];
    let b5 = b[5];
    let b6 = b[6];
    let b7 = b[7];
    let x = from_be64(b);
    assert({
        let x = (b0 as u64) << 56 | (b1 as u64) << 48 | (b2 as u64) << 40 | (b3 as u64) << 32 | (
        b4 as u64) << 24 | (b5 as u64) << 16 | (b6 as u64) << 8 | (b7 as u64);
        &&& ((x >> 56) & 0xff) as u8 == b0
        &&& ((x >> 48) & 0xff) as u8 == b1
        &&& ((x >> 40) & 0xff) as u8 == b2
        &&& ((x >> 32) & 0xff) as u8 == b3
        &&& ((x >> 24) & 0xff) as u8 == b4
        &&& ((x >> 16) & 0xff) as u8 == b5
        &&& ((x >> 8) & 0xff) as u8 == b6
        &&& ((x >> 0) & 0xff) as u8 == b7
    }) by (bit_vector);
    assert(be64(x) =~= b.subrange(0, 8));
}

/// The encodings of two numbers are ordered as the numbers are.
pub proof fn lemma_be64_order(x: u64, y: u64)
    ensures
        bytes_lt(be64(x), be64(y)) <==> x < y,
{
    reveal_with_fuel(lt_from, 9);
    let (x7, x6, x5, x4) = (byte_of(x, 7), byte_of(x, 6), byte_of(x, 5), byte_of(x, 4));
    let (x3, x2, x1, x0) = (byte_of(x, 3), byte_of(x, 2), byte_of(x, 1), byte_of(x, 0));
    let (y7, y6, y5, y4) = (byte_of(y, 7), byte_of(y, 6), byte_of(y, 5), byte_of(y, 4));
    let (y3, y2, y1, y0) = (byte_of(y, 3), byte_of(y, 2), byte_of(y, 1), byte_of(y, 0));
    assert(x < y <==> (x7 < y7 || (x7 == y7 && (x6 < y6 || (x6 == y6 && (x5 < y5 || (x5 == y5 && (x4
        < y4 || (x4 == y4 && (x3 < y3 || (x3 == y3 && (x2 < y2 || (x2 == y2 && (x1 < y1 || (x1 == y1
        && x0 < y0))))))))))))))) by (bit_vector)
        requires
            x7 == ((x >> 56) & 0xff) as u8,
            x6 == ((x >> 48) & 0xff) as u8,
            x5 == ((x >> 40) & 0xff) as u8,
            x4 == ((x >> 32) & 0xff) as u8,
            x3 == ((x >> 24) & 0xff) as u8,
            x2 == ((x >> 16) & 0xff) as u8,
            x1 == ((x >> 8) & 0xff) as u8,
            x0 == ((x >> 0) & 0xff) as u8,
            y7 == ((y >> 56) & 0xff) as u8,
            y6 == ((y >> 48) & 0xff) as u8,
            y5 == ((y >> 40) & 0xff) as u8,
            y4 == ((y >> 32) & 0xff) as u8,
            y3 == ((y >> 24) & 0xff) as u8,
            y2 == ((y >> 16) & 0xff) as u8,
            y1 == ((y >> 8) & 0xff) as u8,
            y0 == ((y >> 0) & 0xff) as u8,
    ;
}

/// Decoding undoes encoding.
pub proof fn lemma_be32_round_trip(x: u32)
    ensures
        be32(x).len() == 4,
        from_be32(be32(x)) == x,
{
    let w = x as u64;
    assert(((((w >> 24) & 0xff) as u8 as u32) << 24 | (((w >> 16) & 0xff) as u8 as u32) << 16 | (((w
        >> 8) & 0xff) as u8 as u32) << 8 | (((w >> 0) & 0xff) as u8 as u32)) == x) by (bit_vector)
        requires
            w == x as u64,
    ;
}

/// The encodings of two numbers are ordered as the numbers are.
pub proof fn lemma_be32_order(x: u32, y: u32)
    ensures
        bytes_lt(be32(x), be32(y)) <==> x < y,
{
    reveal_with_fuel(lt_from, 5);
    let (v, w) = (x as u64, y as u64);
    let (x3, x2, x1, x0) = (byte_of(v, 3), byte_of(v, 2), byte_of(v, 1), byte_of(v, 0));
    let (y3, y2, y1, y0) = (byte_of(w, 3), byte_of(w, 2), byte_of(w, 1), byte_of(w, 0));
    assert(x < y <==> (x3 < y3 || (x3 == y3 && (x2 < y2 || (x2 == y2 && (x1 < y1 || (x1 == y1 && x0
        < y0))))))) by (bit_vector)
        requires
            v == x as u64,
            w == y as u64,
            x3 == ((v >> 24) & 0xff) as u8,
            x2 == ((v >> 16) & 0xff) as u8,
            x1 == ((v >> 8) & 0xff) as u8,
            x0 == ((v >> 0) & 0xff) as u8,
            y3 == ((w >> 24) & 0xff) as u8,
            y2 == ((w >> 16) & 0xff) as u8,
            y1 == ((w >> 8) & 0xff) as u8,
            y0 == ((w >> 0) & 0xff) as u8,
    ;
}

/// One byte of a number, for the encoders.
fn take_byte(x: u64, k: u64) -> (b: u8)
    requires
        k < 8,
    ensures
        b == byte_of(x, k),
{
    let shifted: u64 = (x >> (8 * k)) & 0xff;
    assert(((x >> (8 * k)) & 0xff) <= 0xff) by (bit_vector);
    shifted as u8
}

/// Appends the big-endian bytes of `x` to `out`.
pub fn push_be64(out: &mut Vec<u8>, x: u64)
    ensures
        final(out)@ == old(out)@ + be64(x),
{
    out.push(take_byte(x, 7));
    out.push(take_byte(x, 6));
    out.push(take_byte(x, 5));
    out.push(take_byte(x, 4));
    out.push(take_byte(x, 3));
    out.push(take_byte(x, 2));
    out.push(take_byte(x, 1));
    out.push(take_byte(x, 0));
    assert(out@ =~= old(out)@ + be64(x));
}

/// Appends the big-endian bytes of `x` to `out`.
pub fn push_be32(out: &mut Vec<u8>, x: u32)
    ensures
        final(out)@ == old(out)@ + be32(x),
{
    let w: u64 = x as u64;
    out.push(take_byte(w, 3));
    out.push(take_byte(w, 2));
    out.push(take_byte(w, 1));
    out.push(take_byte(w, 0));
    assert(out@ =~= old(out)@ + be32(x));
}

/// Reads the big-endian number that starts at `at`.
pub fn read_be64(bytes: &[u8], at: usize) -> (x: u64)
    requires
        at + 8 <= bytes@.len(),
    ensures
        x == from_be64(bytes@.subrange(at as int, at + 8)),
{
    (bytes[at] as u64) << 56 | (bytes[at + 1] as u64) << 48 | (bytes[at + 2] as u64) << 40 | (
    bytes[at + 3] as u64) << 32 | (bytes[at + 4] as u64) << 24 | (bytes[at + 5] as u64) << 16 | (
    bytes[at + 6] as u64) << 8 | (bytes[at + 7] as u64)
}

/// Reads the big-endian number that starts at `at`.
pub fn read_be32(bytes: &[u8], at: usize) -> (x: u32)
    requires
        at + 4 <= bytes@.len(),
    ensures
        x == from_be32(bytes@.subrange(at as int, at + 4)),
{
    (bytes[at] as u32) << 24 | (bytes[at + 1] as u32) << 16 | (bytes[at + 2] as u32) << 8 | (
    bytes[at + 3] as u32)
}

} // verus!
