//! The codec contract: how a typed key or value becomes its canonical bytes
//! and comes back.

pub mod be;
pub mod frame;
pub mod record;
pub mod show;

use crate::codec::be::{
    be32, be64, from_be32, from_be64, lemma_be32_order, lemma_be32_round_trip, lemma_be64_order,
    lemma_be64_round_trip, push_be32, push_be64, read_be32, read_be64,
};
use crate::codec::frame::{frames_fit, join_frames};
use crate::codec::record::{decode_field, fields_of, frame2, lemma_fields_round_trip, unframe};
use crate::codec::show::{corrupted, shows};
use crate::error::StringErr;
use crate::lex::bytes_lt;
use vstd::prelude::*;
use vstd::array::array_as_slice;
use vstd::slice::slice_to_vec;
use vstd::string::*;
use vstd::utf8::*;

verus! {

/// A type with a canonical byte encoding.
///
/// Contracts speak of a value by its view. `encoded` is the one byte string
/// that stands for a value; `decoded` reads a byte string back and is `None`
/// on bytes that stand for nothing.
pub trait Codec: View + Sized {
    /// The model values that a value of this type can have.
    spec fn valid(v: Self::V) -> bool;

    /// The canonical bytes of `v`.
    spec fn encoded(v: Self::V) -> Seq<u8>;

    /// The value that `bytes` stand for, if any.
    spec fn decoded(bytes: Seq<u8>) -> Option<Self::V>;

    /// Decoding undoes encoding.
    proof fn lemma_round_trip(v: Self::V)
        requires
            Self::valid(v),
        ensures
            Self::decoded(Self::encoded(v)) == Some(v),
    ;

    /// The canonical bytes of this value.
    fn as_bytes(&self) -> (bytes: Vec<u8>)
        ensures
            Self::valid(self@),
            bytes@ == Self::encoded(self@),
    ;

    /// Reads a value back; fails exactly on bytes that stand for none, with
    /// an error that shows them.
    fn from_bytes(bytes: &[u8]) -> (r: Result<Self, StringErr>)
        ensures
            match Self::decoded(bytes@) {
                Some(v) => r matches Ok(x) && x@ == v,
                None => r matches Err(e) && shows(e.0@, bytes@),
            },
    ;
}

/// A key type: its encoding keeps the order that the type is meant to have,
/// so that a scan in byte order is a scan in key order.
pub trait Key: Codec {
    /// `a` comes strictly before `b`.
    spec fn key_lt(a: Self::V, b: Self::V) -> bool;

    /// Keys are ordered as their encodings are.
    proof fn lemma_order(a: Self::V, b: Self::V)
        requires
            Self::valid(a),
            Self::valid(b),
        ensures
            Self::key_lt(a, b) <==> bytes_lt(Self::encoded(a), Self::encoded(b)),
    ;
}

/// Encodes a value and reads the bytes back: the value comes back.
pub fn round_trip<T: Codec>(x: &T) -> (r: Result<T, StringErr>)
    ensures
        r matches Ok(y) && y@ == x@,
{
    let bytes = x.as_bytes();
    proof {
        T::lemma_round_trip(x@);
    }
    T::from_bytes(bytes.as_slice())
}

/// Different values have different encodings.
pub proof fn lemma_encoding_injective<T: Codec>(a: T::V, b: T::V)
    requires
        T::valid(a),
        T::valid(b),
        T::encoded(a) == T::encoded(b),
    ensures
        a == b,
{
    T::lemma_round_trip(a);
    T::lemma_round_trip(b);
}

/// `std::str::from_utf8`, with the text copied out: it accepts exactly the
/// byte strings that are well-formed UTF-8, and the text it gives has those
/// bytes as its UTF-8 form. On other bytes it gives the error's message.
#[verifier::external_body]
pub(crate) fn text_of_utf8(bytes: &[u8]) -> (r: Result<String, String>)
    ensures
        r is Ok <==> valid_utf8(bytes@),
        r matches Ok(s) ==> encode_utf8(s@) == bytes@,
{
    match std::str::from_utf8(bytes) {
        Ok(s) => Ok(s.to_owned()),
        Err(e) => Err(e.to_string()),
    }
}

impl Codec for u64 {
    open spec fn valid(v: u64) -> bool {
        true
    }

    open spec fn encoded(v: u64) -> Seq<u8> {
        be64(v)
    }

    open spec fn decoded(bytes: Seq<u8>) -> Option<u64> {
        if bytes.len() == 8 {
            Some(from_be64(bytes))
        } else {
            None
        }
    }

    proof fn lemma_round_trip(v: u64) {
        lemma_be64_round_trip(v);
    }

    fn as_bytes(&self) -> (bytes: Vec<u8>) {
        let mut out: Vec<u8> = Vec::new();
        push_be64(&mut out, *self);
        assert(out@ =~= be64(*self));
        out
    }

    fn from_bytes(bytes: &[u8]) -> (r: Result<Self, StringErr>) {
        if bytes.len() == 8 {
            assert(bytes@.subrange(0, 8) =~= bytes@);
            Ok(read_be64(bytes, 0))
        } else {
            Err(corrupted("an 8-byte number was expected", bytes))
        }
    }
}

impl Key for u64 {
    open spec fn key_lt(a: u64, b: u64) -> bool {
        a < b
    }

    proof fn lemma_order(a: u64, b: u64) {
        lemma_be64_order(a, b);
    }
}

impl Codec for u32 {
    open spec fn valid(v: u32) -> bool {
        true
    }

    open spec fn encoded(v: u32) -> Seq<u8> {
        be32(v)
    }

    open spec fn decoded(bytes: Seq<u8>) -> Option<u32> {
        if bytes.len() == 4 {
            Some(from_be32(bytes))
        } else {
            None
        }
    }

    proof fn lemma_round_trip(v: u32) {
        lemma_be32_round_trip(v);
    }

    fn as_bytes(&self) -> (bytes: Vec<u8>) {
        let mut out: Vec<u8> = Vec::new();
        push_be32(&mut out, *self);
        assert(out@ =~= be32(*self));
        out
    }

    fn from_bytes(bytes: &[u8]) -> (r: Result<Self, StringErr>) {
        if bytes.len() == 4 {
            assert(bytes@.subrange(0, 4) =~= bytes@);
            Ok(read_be32(bytes, 0))
        } else {
            Err(corrupted("a 4-byte number was expected", bytes))
        }
    }
}

impl Key for u32 {
    open spec fn key_lt(a: u32, b: u32) -> bool {
        a < b
    }

    proof fn lemma_order(a: u32, b: u32) {
        lemma_be32_order(a, b);
    }
}

/// A signed number moved up by 2^31, which keeps the order and leaves no
/// sign.
pub open spec fn lifted(v: i32) -> u32 {
    (v + 0x8000_0000) as u32
}

/// The signed number that was moved up to `u`.
pub open spec fn lowered(u: u32) -> i32 {
    (u - 0x8000_0000) as i32
}

impl Codec for i32 {
    open spec fn valid(v: i32) -> bool {
        true
    }

    open spec fn encoded(v: i32) -> Seq<u8> {
        be32(lifted(v))
    }

    open spec fn decoded(bytes: Seq<u8>) -> Option<i32> {
        if bytes.len() == 4 {
            Some(lowered(from_be32(bytes)))
        } else {
            None
        }
    }

    proof fn lemma_round_trip(v: i32) {
        lemma_be32_round_trip(lifted(v));
    }

    fn as_bytes(&self) -> (bytes: Vec<u8>) {
        let mut out: Vec<u8> = Vec::new();
        let up: u32 = (*self as i64 + 0x8000_0000i64) as u32;
        push_be32(&mut out, up);
        assert(out@ =~= be32(lifted(*self)));
        out
    }

    fn from_bytes(bytes: &[u8]) -> (r: Result<Self, StringErr>) {
        if bytes.len() == 4 {
            assert(bytes@.subrange(0, 4) =~= bytes@);
            let up: u32 = read_be32(bytes, 0);
            Ok((up as i64 - 0x8000_0000i64) as i32)
        } else {
            Err(corrupted("a 4-byte number was expected", bytes))
        }
    }
}

impl Key for i32 {
    open spec fn key_lt(a: i32, b: i32) -> bool {
        a < b
    }

    proof fn lemma_order(a: i32, b: i32) {
        lemma_be32_order(lifted(a), lifted(b));
    }
}

impl Codec for () {
    open spec fn valid(v: ()) -> bool {
        true
    }

    open spec fn encoded(v: ()) -> Seq<u8> {
        Seq::empty()
    }

    open spec fn decoded(bytes: Seq<u8>) -> Option<()> {
        if bytes.len() == 0 {
            Some(())
        } else {
            None
        }
    }

    proof fn lemma_round_trip(v: ()) {
    }

    fn as_bytes(&self) -> (bytes: Vec<u8>) {
        Vec::new()
    }

    fn from_bytes(bytes: &[u8]) -> (r: Result<Self, StringErr>) {
        if bytes.len() == 0 {
            Ok(())
        } else {
            Err(corrupted("no bytes were expected", bytes))
        }
    }
}

impl Codec for String {
    open spec fn valid(v: Seq<char>) -> bool {
        true
    }

    open spec fn encoded(v: Seq<char>) -> Seq<u8> {
        encode_utf8(v)
    }

    open spec fn decoded(bytes: Seq<u8>) -> Option<Seq<char>> {
        if valid_utf8(bytes) {
            Some(decode_utf8(bytes))
        } else {
            None
        }
    }

    proof fn lemma_round_trip(v: Seq<char>) {
        encode_utf8_valid_utf8(v);
        encode_utf8_decode_utf8(v);
    }

    fn as_bytes(&self) -> (bytes: Vec<u8>) {
        self.as_str().as_bytes_vec()
    }

    fn from_bytes(bytes: &[u8]) -> (r: Result<Self, StringErr>) {
        match text_of_utf8(bytes) {
            Ok(s) => {
                proof {
                    encode_utf8_decode_utf8(s@);
                }
                Ok(s)
            },
            Err(e) => Err(corrupted(e.as_str(), bytes)),
        }
    }
}

impl Codec for Vec<u8> {
    open spec fn valid(v: Seq<u8>) -> bool {
        true
    }

    open spec fn encoded(v: Seq<u8>) -> Seq<u8> {
        v
    }

    open spec fn decoded(bytes: Seq<u8>) -> Option<Seq<u8>> {
        Some(bytes)
    }

    proof fn lemma_round_trip(v: Seq<u8>) {
    }

    fn as_bytes(&self) -> (bytes: Vec<u8>) {
        slice_to_vec(self.as_slice())
    }

    fn from_bytes(bytes: &[u8]) -> (r: Result<Self, StringErr>) {
        Ok(slice_to_vec(bytes))
    }
}

/// A signed number moved up by 2^63.
pub open spec fn lifted64(v: i64) -> u64 {
    (v + 0x8000_0000_0000_0000) as u64
}

/// The signed number that was moved up to `u`.
pub open spec fn lowered64(u: u64) -> i64 {
    (u - 0x8000_0000_0000_0000) as i64
}

impl Codec for i64 {
    open spec fn valid(v: i64) -> bool {
        true
    }

    open spec fn encoded(v: i64) -> Seq<u8> {
        be64(lifted64(v))
    }

    open spec fn decoded(bytes: Seq<u8>) -> Option<i64> {
        if bytes.len() == 8 {
            Some(lowered64(from_be64(bytes)))
        } else {
            None
        }
    }

    proof fn lemma_round_trip(v: i64) {
        lemma_be64_round_trip(lifted64(v));
    }

    fn as_bytes(&self) -> (bytes: Vec<u8>) {
        let mut out: Vec<u8> = Vec::new();
        let up: u64 = (*self as i128 + 0x8000_0000_0000_0000i128) as u64;
        push_be64(&mut out, up);
        assert(out@ =~= be64(lifted64(*self)));
        out
    }

    fn from_bytes(bytes: &[u8]) -> (r: Result<Self, StringErr>) {
        if bytes.len() == 8 {
            assert(bytes@.subrange(0, 8) =~= bytes@);
            let up: u64 = read_be64(bytes, 0);
            Ok((up as i128 - 0x8000_0000_0000_0000i128) as i64)
        } else {
            Err(corrupted("an 8-byte number was expected", bytes))
        }
    }
}

impl Key for i64 {
    open spec fn key_lt(a: i64, b: i64) -> bool {
        a < b
    }

    proof fn lemma_order(a: i64, b: i64) {
        lemma_be64_order(lifted64(a), lifted64(b));
    }
}

impl Codec for usize {
    open spec fn valid(v: usize) -> bool {
        true
    }

    open spec fn encoded(v: usize) -> Seq<u8> {
        be64(v as u64)
    }

    open spec fn decoded(bytes: Seq<u8>) -> Option<usize> {
        if bytes.len() == 8 && from_be64(bytes) <= usize::MAX {
            Some(from_be64(bytes) as usize)
        } else {
            None
        }
    }

    proof fn lemma_round_trip(v: usize) {
        lemma_be64_round_trip(v as u64);
    }

    fn as_bytes(&self) -> (bytes: Vec<u8>) {
        let mut out: Vec<u8> = Vec::new();
        push_be64(&mut out, *self as u64);
        assert(out@ =~= be64(*self as u64));
        out
    }

    fn from_bytes(bytes: &[u8]) -> (r: Result<Self, StringErr>) {
        if bytes.len() == 8 {
            assert(bytes@.subrange(0, 8) =~= bytes@);
            let x: u64 = read_be64(bytes, 0);
            if x <= usize::MAX as u64 {
                return Ok(x as usize);
            }
        }
        Err(corrupted("an 8-byte index was expected", bytes))
    }
}

impl Key for usize {
    open spec fn key_lt(a: usize, b: usize) -> bool {
        a < b
    }

    proof fn lemma_order(a: usize, b: usize) {
        lemma_be64_order(a as u64, b as u64);
    }
}

impl Codec for [u8; 32] {
    open spec fn valid(v: Seq<u8>) -> bool {
        v.len() == 32
    }

    open spec fn encoded(v: Seq<u8>) -> Seq<u8> {
        v
    }

    open spec fn decoded(bytes: Seq<u8>) -> Option<Seq<u8>> {
        if bytes.len() == 32 {
            Some(bytes)
        } else {
            None
        }
    }

    proof fn lemma_round_trip(v: Seq<u8>) {
    }

    fn as_bytes(&self) -> (bytes: Vec<u8>) {
        slice_to_vec(array_as_slice(self))
    }

    fn from_bytes(bytes: &[u8]) -> (r: Result<Self, StringErr>) {
        if bytes.len() != 32 {
            return Err(corrupted("32 bytes were expected", bytes));
        }
        let mut out: [u8; 32] = [0u8; 32];
        let mut i: usize = 0;
        while i < 32
            invariant
                i <= 32,
                bytes@.len() == 32,
                forall|j: int| 0 <= j < i ==> out@[j] == bytes@[j],
            decreases 32 - i,
        {
            out[i] = bytes[i];
            i = i + 1;
        }
        assert(out@ =~= bytes@);
        Ok(out)
    }
}

impl Key for [u8; 32] {
    open spec fn key_lt(a: Seq<u8>, b: Seq<u8>) -> bool {
        bytes_lt(a, b)
    }

    proof fn lemma_order(a: Seq<u8>, b: Seq<u8>) {
    }
}

impl<A: Codec, B: Codec> Codec for (A, B) {
    open spec fn valid(v: (A::V, B::V)) -> bool {
        &&& A::valid(v.0)
        &&& B::valid(v.1)
        &&& A::encoded(v.0).len() <= u64::MAX
        &&& B::encoded(v.1).len() <= u64::MAX
    }

    open spec fn encoded(v: (A::V, B::V)) -> Seq<u8> {
        join_frames(seq![A::encoded(v.0), B::encoded(v.1)])
    }

    open spec fn decoded(bytes: Seq<u8>) -> Option<(A::V, B::V)> {
        match fields_of(bytes, 2) {
            Some(f) => match (A::decoded(f[0]), B::decoded(f[1])) {
                (Some(a), Some(b)) => Some((a, b)),
                _ => None,
            },
            None => None,
        }
    }

    proof fn lemma_round_trip(v: (A::V, B::V)) {
        let fields = seq![A::encoded(v.0), B::encoded(v.1)];
        assert(frames_fit(fields));
        lemma_fields_round_trip(fields);
        A::lemma_round_trip(v.0);
        B::lemma_round_trip(v.1);
    }

    fn as_bytes(&self) -> (bytes: Vec<u8>) {
        let a = self.0.as_bytes();
        let b = self.1.as_bytes();
        let sizes: (usize, usize) = (a.len(), b.len());
        frame2(a.as_slice(), b.as_slice())
    }

    fn from_bytes(bytes: &[u8]) -> (r: Result<Self, StringErr>) {
        match unframe(bytes, 2) {
            Some(f) => match (decode_field::<A>(&f, 0), decode_field::<B>(&f, 1)) {
                (Some(a), Some(b)) => Ok((a, b)),
                _ => Err(corrupted("a damaged pair", bytes)),
            },
            None => Err(corrupted("a pair was expected", bytes)),
        }
    }
}

} // verus!
