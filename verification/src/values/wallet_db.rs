//! A wallet as the ledger keeps it.

use crate::codec::show::{corrupted, shows};
use crate::codec::text_of_utf8;
use crate::error::StringErr;
use vstd::prelude::*;
use vstd::utf8::*;

verus! {

/// A wallet: the conditions that lock it, and its balance.
#[derive(Clone, Debug, PartialEq)]
pub struct WalletDbV1 {
    pub conditions: String,
    pub balance: u64,
}

/// A wallet in the model.
pub struct WalletDbView {
    pub conditions: Seq<char>,
    pub balance: u64,
}

impl View for WalletDbV1 {
    type V = WalletDbView;

    open spec fn view(&self) -> WalletDbView {
        WalletDbView { conditions: self.conditions@, balance: self.balance }
    }
}

impl WalletDbV1 {
    /// The text of a stored wallet, which is what a reader of the wallet's
    /// text form is given. Bytes that are not well-formed UTF-8 are
    /// reported, with an error that shows them.
    pub fn stored_text(bytes: &[u8]) -> (r: Result<String, StringErr>)
        ensures
            r is Ok <==> valid_utf8(bytes@),
            r matches Ok(text) ==> text@ == decode_utf8(bytes@),
            r matches Err(e) ==> shows(e.0@, bytes@),
    {
        match text_of_utf8(bytes) {
            Ok(text) => {
                proof {
                    encode_utf8_decode_utf8(text@);
                }
                Ok(text)
            },
            Err(message) => Err(corrupted(message.as_str(), bytes)),
        }
    }
}

} // verus!
