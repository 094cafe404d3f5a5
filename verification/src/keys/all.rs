//! The key of a collection that holds one entry only.

use crate::codec::show::{around, debug_bytes, debug_text};
use crate::codec::{Codec, Key};
use crate::dump::ToDumpString;
use crate::error::{KvResult, StringErr};
use crate::lex::lemma_lt_irreflexive;
use vstd::prelude::*;
use vstd::string::*;
use vstd::utf8::*;

verus! {

/// The one key of a collection that holds one entry only.
#[derive(Clone, Copy, Debug, Eq, Hash, PartialEq, PartialOrd)]
pub struct AllKeyV1;

/// The bytes of the key: the letters `ALL`.
pub open spec fn all_bytes() -> Seq<u8> {
    seq![65u8, 76u8, 76u8]
}

/// The message for bytes that are not the key.
pub open spec fn invalid_key_message(found: Seq<u8>) -> Seq<char> {
    "Invalid key: expected '"@ + debug_text(all_bytes()) + "', found '"@ + debug_text(found) + "'"@
}

impl View for AllKeyV1 {
    type V = ();

    open spec fn view(&self) -> () {
        ()
    }
}

/// The letters `ALL` as bytes.
fn all_letters() -> (bytes: Vec<u8>)
    ensures
        bytes@ == all_bytes(),
{
    let mut bytes: Vec<u8> = Vec::new();
    bytes.push(65u8);
    bytes.push(76u8);
    bytes.push(76u8);
    assert(bytes@ =~= all_bytes());
    bytes
}

impl Codec for AllKeyV1 {
    open spec fn valid(v: ()) -> bool {
        true
    }

    open spec fn encoded(v: ()) -> Seq<u8> {
        all_bytes()
    }

    open spec fn decoded(bytes: Seq<u8>) -> Option<()> {
        if bytes == all_bytes() {
            Some(())
        } else {
            None
        }
    }

    proof fn lemma_round_trip(v: ()) {
    }

    fn as_bytes(&self) -> (bytes: Vec<u8>) {
        all_letters()
    }

    fn from_bytes(bytes: &[u8]) -> (r: Result<Self, StringErr>)
        ensures
            r matches Err(e) ==> e.0@ == invalid_key_message(bytes@),
    {
        if bytes.len() == 3 && bytes[0] == 65u8 && bytes[1] == 76u8 && bytes[2] == 76u8 {
            assert(bytes@ =~= all_bytes());
            Ok(AllKeyV1)
        } else {
            let expected = all_letters();
            let message = String::from_str("Invalid key: expected '").concat(
                debug_bytes(expected.as_slice()).as_str(),
            ).concat("', found '").concat(debug_bytes(bytes).as_str()).concat("'");
            assert(message@ =~= around(
                "Invalid key: expected '"@ + debug_text(all_bytes()) + "', found '"@,
                debug_text(bytes@),
                "'"@,
            ));
            Err(StringErr(message))
        }
    }
}

impl Key for AllKeyV1 {
    open spec fn key_lt(a: (), b: ()) -> bool {
        false
    }

    proof fn lemma_order(a: (), b: ()) {
        lemma_lt_irreflexive(all_bytes());
    }
}

impl AllKeyV1 {
    /// Reads the key from the text that an explorer shows for it.
    pub fn from_explorer_str(source: &str) -> (r: Result<Self, StringErr>)
        ensures
            r is Ok <==> encode_utf8(source@) == all_bytes(),
            r matches Err(e) ==> e.0@ == invalid_key_message(encode_utf8(source@)),
    {
        Self::from_bytes(source.as_bytes())
    }

    /// The text that an explorer shows for the key.
    pub fn to_explorer_string(&self) -> (r: KvResult<String>)
        ensures
            r matches Ok(text) && text@ == "ALL"@,
    {
        Ok(String::from_str("ALL"))
    }
}

impl ToDumpString for AllKeyV1 {
    fn to_dump_string(&self) -> (text: String)
        ensures
            text@ == "ALL"@,
    {
        String::from_str("ALL")
    }
}

} // verus!
