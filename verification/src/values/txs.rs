//! The transactions of one block.

use crate::codec::record::{
    counted_decoded, counted_encoded, decode_counted, encode_counted, lemma_counted_round_trip,
    list_valid, views,
};
use crate::codec::show::corrupted;
use crate::codec::Codec;
use crate::error::StringErr;
use crate::values::tx_db::{TransactionDocumentV10, TxDocView};
use vstd::prelude::*;
use vstd::string::*;

verus! {

/// The transactions of one block, in the order of the block.
///
/// Stored as their number, eight big-endian bytes, and then one frame for
/// each of them. This is the library's own format: what another program
/// has stored in another format cannot be read with it.
#[derive(Clone, Debug, PartialEq)]
pub struct BlockTxsDbV2(pub Vec<TransactionDocumentV10>);

impl View for BlockTxsDbV2 {
    type V = Seq<TxDocView>;

    open spec fn view(&self) -> Seq<TxDocView> {
        views(self.0@)
    }
}

impl Default for BlockTxsDbV2 {
    fn default() -> (txs: Self)
        ensures
            txs@ == Seq::<TxDocView>::empty(),
    {
        let txs = BlockTxsDbV2(Vec::new());
        assert(txs@ =~= Seq::<TxDocView>::empty());
        txs
    }
}

impl Codec for BlockTxsDbV2 {
    open spec fn valid(v: Seq<TxDocView>) -> bool {
        list_valid::<TransactionDocumentV10>(v)
    }

    open spec fn encoded(v: Seq<TxDocView>) -> Seq<u8> {
        counted_encoded::<TransactionDocumentV10>(v)
    }

    open spec fn decoded(bytes: Seq<u8>) -> Option<Seq<TxDocView>> {
        counted_decoded::<TransactionDocumentV10>(bytes)
    }

    proof fn lemma_round_trip(v: Seq<TxDocView>) {
        lemma_counted_round_trip::<TransactionDocumentV10>(v);
    }

    fn as_bytes(&self) -> (bytes: Vec<u8>) {
        encode_counted(&self.0)
    }

    fn from_bytes(bytes: &[u8]) -> (r: Result<Self, StringErr>) {
        match decode_counted::<TransactionDocumentV10>(bytes) {
            Some(txs) => Ok(BlockTxsDbV2(txs)),
            None => Err(corrupted("damaged block of transactions", bytes)),
        }
    }
}

} // verus!
