//! User names as keys.

use crate::codec::show::corrupted;
use crate::codec::{text_of_utf8, Codec, Key};
use crate::dump::ToDumpString;
use crate::error::{KvResult, StringErr};
use crate::lex::bytes_lt;
use arrayvec::ArrayString;
use vstd::prelude::*;
use vstd::string::*;
use vstd::utf8::*;

verus! {

/// The longest user name, in bytes of UTF-8.
pub const USERNAME_MAX_LEN: usize = 100;

/// `arrayvec::ArrayString`, the string of fixed capacity that a user name
/// is kept in. Nothing inside it is seen here.
#[verifier::external_type_specification]
#[verifier::external_body]
pub struct ExArrayString<const CAP: usize>(ArrayString<CAP>);

/// `arrayvec::CapacityError`, the error of a text that is too long for a
/// string of fixed capacity. Nothing inside it is seen here.
#[verifier::external_type_specification]
#[verifier::external_body]
#[verifier::reject_recursive_types(T)]
pub struct ExCapacityError<T>(arrayvec::CapacityError<T>);

/// A name for the text that a string of fixed capacity holds.
pub uninterp spec fn uid_text(name: ArrayString<100>) -> Seq<char>;

/// `ArrayString::from_str`: a fixed-capacity string that holds `source`,
/// which is made exactly if the UTF-8 form of `source` has no more bytes
/// than the capacity.
#[verifier::external_body]
fn name_from_str(source: &str) -> (r: Result<ArrayString<100>, arrayvec::CapacityError>)
    ensures
        r is Ok <==> encode_utf8(source@).len() <= 100,
        r matches Ok(name) ==> uid_text(name) == source@,
{
    <ArrayString<100> as std::str::FromStr>::from_str(source)
}

/// `ArrayString::as_str`: the text that the string holds, whose UTF-8 form
/// has no more bytes than the capacity.
#[verifier::external_body]
fn name_as_str(name: &ArrayString<100>) -> (text: &str)
    ensures
        text@ == uid_text(*name),
        encode_utf8(text@).len() <= 100,
{
    name.as_str()
}

/// A user name, of at most 100 bytes.
#[derive(Clone, Copy, Debug, Eq, Hash, PartialEq, PartialOrd)]
pub struct UidKeyV1(pub ArrayString<100>);

impl View for UidKeyV1 {
    type V = Seq<char>;

    open spec fn view(&self) -> Seq<char> {
        uid_text(self.0)
    }
}

impl Codec for UidKeyV1 {
    open spec fn valid(v: Seq<char>) -> bool {
        encode_utf8(v).len() <= 100
    }

    open spec fn encoded(v: Seq<char>) -> Seq<u8> {
        encode_utf8(v)
    }

    open spec fn decoded(bytes: Seq<u8>) -> Option<Seq<char>> {
        if valid_utf8(bytes) && bytes.len() <= 100 {
            Some(decode_utf8(bytes))
        } else {
            None
        }
    }

    proof fn lemma_round_trip(v: Seq<char>) {
        encode_utf8_valid_utf8(v);
        encode_utf8_decode_utf8(v);
    }

    fn as_bytes(&self) -> (bytes: Vec<u8>) {
        name_as_str(&self.0).as_bytes_vec()
    }

    fn from_bytes(bytes: &[u8]) -> (r: Result<Self, StringErr>) {
        let uid_str = match text_of_utf8(bytes) {
            Ok(text) => text,
            Err(message) => {
                return Err(corrupted(message.as_str(), bytes));
            },
        };
        proof {
            encode_utf8_decode_utf8(uid_str@);
        }
        match name_from_str(uid_str.as_str()) {
            Ok(name) => Ok(UidKeyV1(name)),
            Err(_) => Err(corrupted("insufficient capacity", bytes)),
        }
    }
}

impl Key for UidKeyV1 {
    open spec fn key_lt(a: Seq<char>, b: Seq<char>) -> bool {
        bytes_lt(encode_utf8(a), encode_utf8(b))
    }

    proof fn lemma_order(a: Seq<char>, b: Seq<char>) {
    }
}

impl UidKeyV1 {
    /// The key for the user name `source`, which must have no more than 100
    /// bytes.
    pub fn from_str(source: &str) -> (r: Result<Self, arrayvec::CapacityError>)
        ensures
            r is Ok <==> encode_utf8(source@).len() <= 100,
            r matches Ok(key) ==> key@ == source@,
    {
        match name_from_str(source) {
            Ok(name) => Ok(UidKeyV1(name)),
            Err(e) => Err(e),
        }
    }

    /// Reads the key from the text that an explorer shows for it.
    pub fn from_explorer_str(source: &str) -> (r: Result<Self, StringErr>)
        ensures
            r is Ok <==> encode_utf8(source@).len() <= 100,
            r matches Ok(key) ==> key@ == source@,
    {
        proof {
            encode_utf8_valid_utf8(source@);
            encode_utf8_decode_utf8(source@);
        }
        Self::from_bytes(source.as_bytes())
    }

    /// The text that an explorer shows for the key: the user name.
    pub fn to_explorer_string(&self) -> (r: KvResult<String>)
        ensures
            r matches Ok(text) && text@ == self@,
    {
        Ok(String::from_str(name_as_str(&self.0)))
    }
}

impl ToDumpString for UidKeyV1 {
    fn to_dump_string(&self) -> (text: String)
        ensures
            text@ == self@,
    {
        String::from_str(name_as_str(&self.0))
    }
}

} // verus!
