//! Transactions as the ledger stores them: the document itself with the
//! block and the time at which it was written.

use crate::codec::be::{
    be32, be64, from_be64, lemma_be32_round_trip, lemma_be64_round_trip, push_be64, read_be64,
};
use crate::codec::frame::{frames_fit, items_of, join_frames, split_frames};
use crate::codec::record::{
    decode_field, decode_list, encode_list, fields_of, fits, frame2, frame3, frame4,
    lemma_fields_round_trip, lemma_list_round_trip, list_decoded, list_encoded, list_valid, unframe,
    views,
};
use crate::codec::show::corrupted;
use crate::codec::{lifted64, lowered64, Codec};
use crate::error::StringErr;
use vstd::prelude::*;
use vstd::string::*;

verus! {

/// A 32-byte digest.
pub type Hash = [u8; 32];

/// A 32-byte public key.
pub type PublicKey = [u8; 32];

/// What stands for the script that locks an output: its 32-byte digest.
pub type WalletScript = [u8; 32];

/// An amount of money: a number of units in a base.
#[derive(Clone, Copy, Debug, PartialEq, Eq, Structural)]
pub struct SourceAmount {
    pub amount: i64,
    pub base: i64,
}

/// Names one output of one transaction.
#[derive(Clone, Copy, Debug, PartialEq, Eq)]
pub struct UtxoIdV10 {
    pub tx_hash: Hash,
    pub output_index: usize,
}

/// Where the money of an input comes from.
#[derive(Clone, Copy, Debug, PartialEq, Eq)]
pub enum SourceIdV10 {
    /// A dividend, created for `issuer` in block `block_number`.
    Ud { issuer: PublicKey, block_number: u32 },
    /// An output of an earlier transaction.
    Utxo(UtxoIdV10),
}

/// One input of a transaction.
#[derive(Clone, Copy, Debug, PartialEq, Eq)]
pub struct TransactionInputV10 {
    pub amount: SourceAmount,
    pub id: SourceIdV10,
}

/// One output of a transaction.
#[derive(Clone, Copy, Debug, PartialEq, Eq)]
pub struct TransactionOutputV10 {
    pub amount: SourceAmount,
    pub script: WalletScript,
}

/// A transaction document, as far as the ledger reads it.
#[derive(Clone, Debug, PartialEq, Eq)]
pub struct TransactionDocumentV10 {
    pub issuers: Vec<PublicKey>,
    pub recipients: Vec<PublicKey>,
    pub inputs: Vec<TransactionInputV10>,
    pub outputs: Vec<TransactionOutputV10>,
}

/// A block, named by its number and its digest.
#[derive(Clone, Copy, Debug, PartialEq, Eq)]
pub struct Blockstamp {
    pub number: u32,
    pub hash: Hash,
}

/// A transaction that was written into the ledger.
///
/// Stored as a record of three frames, the document itself as a record
/// of four lists. This is the library's own format: what another program
/// has stored in another format cannot be read with it.
#[derive(Clone, Debug, PartialEq, Eq)]
pub struct TxDbV2 {
    pub tx: TransactionDocumentV10,
    pub written_block: Blockstamp,
    pub written_time: i64,
}

/// The name of an output in the model.
pub struct UtxoIdView {
    pub tx_hash: Seq<u8>,
    pub output_index: usize,
}

/// The source of an input in the model.
pub enum SourceIdView {
    Ud { issuer: Seq<u8>, block_number: u32 },
    Utxo(UtxoIdView),
}

/// An input in the model.
pub struct InputView {
    pub amount: SourceAmount,
    pub id: SourceIdView,
}

/// An output in the model.
pub struct OutputView {
    pub amount: SourceAmount,
    pub script: Seq<u8>,
}

/// A transaction document in the model: its four lists as sequences.
pub struct TxDocView {
    pub issuers: Seq<Seq<u8>>,
    pub recipients: Seq<Seq<u8>>,
    pub inputs: Seq<InputView>,
    pub outputs: Seq<OutputView>,
}

/// The name of a block in the model.
pub struct BlockstampView {
    pub number: u32,
    pub hash: Seq<u8>,
}

/// A written transaction in the model.
pub struct TxDbView {
    pub tx: TxDocView,
    pub written_block: BlockstampView,
    pub written_time: i64,
}

impl View for UtxoIdV10 {
    type V = UtxoIdView;

    open spec fn view(&self) -> UtxoIdView {
        UtxoIdView { tx_hash: self.tx_hash@, output_index: self.output_index }
    }
}

impl View for SourceIdV10 {
    type V = SourceIdView;

    open spec fn view(&self) -> SourceIdView {
        match self {
            SourceIdV10::Ud { issuer, block_number } => SourceIdView::Ud {
                issuer: issuer@,
                block_number: *block_number,
            },
            SourceIdV10::Utxo(id) => SourceIdView::Utxo(id@),
        }
    }
}

impl View for TransactionInputV10 {
    type V = InputView;

    open spec fn view(&self) -> InputView {
        InputView { amount: self.amount, id: self.id@ }
    }
}

impl View for TransactionOutputV10 {
    type V = OutputView;

    open spec fn view(&self) -> OutputView {
        OutputView { amount: self.amount, script: self.script@ }
    }
}

impl View for TransactionDocumentV10 {
    type V = TxDocView;

    open spec fn view(&self) -> TxDocView {
        TxDocView {
            issuers: views(self.issuers@),
            recipients: views(self.recipients@),
            inputs: views(self.inputs@),
            outputs: views(self.outputs@),
        }
    }
}

impl View for Blockstamp {
    type V = BlockstampView;

    open spec fn view(&self) -> BlockstampView {
        BlockstampView { number: self.number, hash: self.hash@ }
    }
}

impl View for TxDbV2 {
    type V = TxDbView;

    open spec fn view(&self) -> TxDbView {
        TxDbView {
            tx: self.tx@,
            written_block: self.written_block@,
            written_time: self.written_time,
        }
    }
}

impl View for SourceAmount {
    type V = SourceAmount;

    open spec fn view(&self) -> SourceAmount {
        *self
    }
}

impl Codec for SourceAmount {
    open spec fn valid(v: SourceAmount) -> bool {
        true
    }

    open spec fn encoded(v: SourceAmount) -> Seq<u8> {
        be64(lifted64(v.amount)) + be64(lifted64(v.base))
    }

    open spec fn decoded(bytes: Seq<u8>) -> Option<SourceAmount> {
        if bytes.len() == 16 {
            Some(
                SourceAmount {
                    amount: lowered64(from_be64(bytes.subrange(0, 8))),
                    base: lowered64(from_be64(bytes.subrange(8, 16))),
                },
            )
        } else {
            None
        }
    }

    proof fn lemma_round_trip(v: SourceAmount) {
        let bytes = Self::encoded(v);
        lemma_be64_round_trip(lifted64(v.amount));
        lemma_be64_round_trip(lifted64(v.base));
        assert(bytes.subrange(0, 8) =~= be64(lifted64(v.amount)));
        assert(bytes.subrange(8, 16) =~= be64(lifted64(v.base)));
    }

    fn as_bytes(&self) -> (bytes: Vec<u8>) {
        let mut out: Vec<u8> = Vec::new();
        push_be64(&mut out, (self.amount as i128 + 0x8000_0000_0000_0000i128) as u64);
        push_be64(&mut out, (self.base as i128 + 0x8000_0000_0000_0000i128) as u64);
        assert(out@ =~= Self::encoded(*self));
        out
    }

    fn from_bytes(bytes: &[u8]) -> (r: Result<Self, StringErr>) {
        if bytes.len() != 16 {
            return Err(corrupted("damaged amount", bytes));
        }
        let amount: u64 = read_be64(bytes, 0);
        let base: u64 = read_be64(bytes, 8);
        Ok(
            SourceAmount {
                amount: (amount as i128 - 0x8000_0000_0000_0000i128) as i64,
                base: (base as i128 - 0x8000_0000_0000_0000i128) as i64,
            },
        )
    }
}

impl Codec for UtxoIdV10 {
    open spec fn valid(v: UtxoIdView) -> bool {
        v.tx_hash.len() == 32
    }

    open spec fn encoded(v: UtxoIdView) -> Seq<u8> {
        join_frames(seq![v.tx_hash, <usize as Codec>::encoded(v.output_index)])
    }

    open spec fn decoded(bytes: Seq<u8>) -> Option<UtxoIdView> {
        match fields_of(bytes, 2) {
            Some(f) => match (<Hash as Codec>::decoded(f[0]), <usize as Codec>::decoded(f[1])) {
                (Some(tx_hash), Some(output_index)) => Some(UtxoIdView { tx_hash, output_index }),
                _ => None,
            },
            None => None,
        }
    }

    proof fn lemma_round_trip(v: UtxoIdView) {
        let fields = seq![v.tx_hash, <usize as Codec>::encoded(v.output_index)];
        assert(frames_fit(fields));
        lemma_fields_round_trip(fields);
        <usize as Codec>::lemma_round_trip(v.output_index);
    }

    fn as_bytes(&self) -> (bytes: Vec<u8>) {
        let a = self.tx_hash.as_bytes();
        let b = self.output_index.as_bytes();
        frame2(a.as_slice(), b.as_slice())
    }

    fn from_bytes(bytes: &[u8]) -> (r: Result<Self, StringErr>) {
        match unframe(bytes, 2) {
            Some(f) => match (decode_field::<Hash>(&f, 0), decode_field::<usize>(&f, 1)) {
                (Some(tx_hash), Some(output_index)) => Ok(UtxoIdV10 { tx_hash, output_index }),
                _ => Err(corrupted("damaged output name", bytes)),
            },
            None => Err(corrupted("damaged output name", bytes)),
        }
    }
}

impl Codec for SourceIdV10 {
    open spec fn valid(v: SourceIdView) -> bool {
        match v {
            SourceIdView::Ud { issuer, block_number } => issuer.len() == 32,
            SourceIdView::Utxo(id) => UtxoIdV10::valid(id) && fits(UtxoIdV10::encoded(id)),
        }
    }

    open spec fn encoded(v: SourceIdView) -> Seq<u8> {
        match v {
            SourceIdView::Ud { issuer, block_number } => join_frames(
                seq![seq![0u8], issuer, be32(block_number)],
            ),
            SourceIdView::Utxo(id) => join_frames(seq![seq![1u8], UtxoIdV10::encoded(id)]),
        }
    }

    open spec fn decoded(bytes: Seq<u8>) -> Option<SourceIdView> {
        match split_frames(bytes) {
            Some(f) => if f.len() == 3 && f[0] == seq![0u8] {
                match (<PublicKey as Codec>::decoded(f[1]), <u32 as Codec>::decoded(f[2])) {
                    (Some(issuer), Some(block_number)) => Some(
                        SourceIdView::Ud { issuer, block_number },
                    ),
                    _ => None,
                }
            } else if f.len() == 2 && f[0] == seq![1u8] {
                match UtxoIdV10::decoded(f[1]) {
                    Some(id) => Some(SourceIdView::Utxo(id)),
                    None => None,
                }
            } else {
                None
            },
            None => None,
        }
    }

    proof fn lemma_round_trip(v: SourceIdView) {
        match v {
            SourceIdView::Ud { issuer, block_number } => {
                let fields = seq![seq![0u8], issuer, be32(block_number)];
                assert(frames_fit(fields));
                lemma_fields_round_trip(fields);
                lemma_be32_round_trip(block_number);
            },
            SourceIdView::Utxo(id) => {
                let fields = seq![seq![1u8], UtxoIdV10::encoded(id)];
                assert(frames_fit(fields));
                lemma_fields_round_trip(fields);
                UtxoIdV10::lemma_round_trip(id);
                assert(seq![1u8][0] != seq![0u8][0]);
            },
        }
    }

    fn as_bytes(&self) -> (bytes: Vec<u8>) {
        let mut tag: Vec<u8> = Vec::new();
        match self {
            SourceIdV10::Ud { issuer, block_number } => {
                tag.push(0u8);
                assert(tag@ =~= seq![0u8]);
                let a = issuer.as_bytes();
                let b = block_number.as_bytes();
                frame3(tag.as_slice(), a.as_slice(), b.as_slice())
            },
            SourceIdV10::Utxo(id) => {
                tag.push(1u8);
                assert(tag@ =~= seq![1u8]);
                let a = id.as_bytes();
                let size: usize = a.len();
                frame2(tag.as_slice(), a.as_slice())
            },
        }
    }

    fn from_bytes(bytes: &[u8]) -> (r: Result<Self, StringErr>) {
        let f = match crate::codec::frame::read_frames(bytes) {
            Some(f) => f,
            None => {
                return Err(corrupted("damaged source", bytes));
            },
        };
        if f.len() == 0 || f[0].len() != 1 {
            assert(f@.len() > 0 ==> items_of(f@)[0] == f@[0]@);
            return Err(corrupted("damaged source", bytes));
        }
        assert(items_of(f@)[0] == f@[0]@);
        let tag: u8 = f[0][0];
        assert(tag == 0u8 ==> f@[0]@ =~= seq![0u8]);
        assert(tag == 1u8 ==> f@[0]@ =~= seq![1u8]);
        assert(f@[0]@ == seq![0u8] ==> tag == 0u8);
        assert(f@[0]@ == seq![1u8] ==> tag == 1u8);
        if tag == 0u8 && f.len() == 3 {
            match (decode_field::<PublicKey>(&f, 1), decode_field::<u32>(&f, 2)) {
                (Some(issuer), Some(block_number)) => Ok(SourceIdV10::Ud { issuer, block_number }),
                _ => Err(corrupted("damaged source", bytes)),
            }
        } else if tag == 1u8 && f.len() == 2 {
            match decode_field::<UtxoIdV10>(&f, 1) {
                Some(id) => Ok(SourceIdV10::Utxo(id)),
                None => Err(corrupted("damaged source", bytes)),
            }
        } else {
            Err(corrupted("damaged source", bytes))
        }
    }
}

impl Codec for TransactionInputV10 {
    open spec fn valid(v: InputView) -> bool {
        SourceIdV10::valid(v.id) && fits(SourceIdV10::encoded(v.id))
    }

    open spec fn encoded(v: InputView) -> Seq<u8> {
        join_frames(seq![SourceAmount::encoded(v.amount), SourceIdV10::encoded(v.id)])
    }

    open spec fn decoded(bytes: Seq<u8>) -> Option<InputView> {
        match fields_of(bytes, 2) {
            Some(f) => match (SourceAmount::decoded(f[0]), SourceIdV10::decoded(f[1])) {
                (Some(amount), Some(id)) => Some(InputView { amount, id }),
                _ => None,
            },
            None => None,
        }
    }

    proof fn lemma_round_trip(v: InputView) {
        let fields = seq![SourceAmount::encoded(v.amount), SourceIdV10::encoded(v.id)];
        assert(frames_fit(fields));
        lemma_fields_round_trip(fields);
        SourceAmount::lemma_round_trip(v.amount);
        SourceIdV10::lemma_round_trip(v.id);
    }

    fn as_bytes(&self) -> (bytes: Vec<u8>) {
        let a = self.amount.as_bytes();
        let b = self.id.as_bytes();
        let size: usize = b.len();
        frame2(a.as_slice(), b.as_slice())
    }

    fn from_bytes(bytes: &[u8]) -> (r: Result<Self, StringErr>) {
        match unframe(bytes, 2) {
            Some(f) => match (decode_field::<SourceAmount>(&f, 0), decode_field::<SourceIdV10>(&f, 1)) {
                (Some(amount), Some(id)) => Ok(TransactionInputV10 { amount, id }),
                _ => Err(corrupted("damaged input", bytes)),
            },
            None => Err(corrupted("damaged input", bytes)),
        }
    }
}

impl Codec for TransactionOutputV10 {
    open spec fn valid(v: OutputView) -> bool {
        v.script.len() == 32
    }

    open spec fn encoded(v: OutputView) -> Seq<u8> {
        join_frames(seq![SourceAmount::encoded(v.amount), v.script])
    }

    open spec fn decoded(bytes: Seq<u8>) -> Option<OutputView> {
        match fields_of(bytes, 2) {
            Some(f) => match (SourceAmount::decoded(f[0]), <WalletScript as Codec>::decoded(f[1])) {
                (Some(amount), Some(script)) => Some(OutputView { amount, script }),
                _ => None,
            },
            None => None,
        }
    }

    proof fn lemma_round_trip(v: OutputView) {
        let fields = seq![SourceAmount::encoded(v.amount), v.script];
        assert(frames_fit(fields));
        lemma_fields_round_trip(fields);
        SourceAmount::lemma_round_trip(v.amount);
    }

    fn as_bytes(&self) -> (bytes: Vec<u8>) {
        let a = self.amount.as_bytes();
        let b = self.script.as_bytes();
        frame2(a.as_slice(), b.as_slice())
    }

    fn from_bytes(bytes: &[u8]) -> (r: Result<Self, StringErr>) {
        match unframe(bytes, 2) {
            Some(f) => match (decode_field::<SourceAmount>(&f, 0), decode_field::<WalletScript>(&f, 1)) {
                (Some(amount), Some(script)) => Ok(TransactionOutputV10 { amount, script }),
                _ => Err(corrupted("damaged output", bytes)),
            },
            None => Err(corrupted("damaged output", bytes)),
        }
    }
}

/// The four lists of a document, each as the bytes of a list.
pub open spec fn doc_fields(v: TxDocView) -> Seq<Seq<u8>> {
    seq![
        list_encoded::<PublicKey>(v.issuers),
        list_encoded::<PublicKey>(v.recipients),
        list_encoded::<TransactionInputV10>(v.inputs),
        list_encoded::<TransactionOutputV10>(v.outputs),
    ]
}

impl Codec for TransactionDocumentV10 {
    open spec fn valid(v: TxDocView) -> bool {
        &&& list_valid::<PublicKey>(v.issuers)
        &&& list_valid::<PublicKey>(v.recipients)
        &&& list_valid::<TransactionInputV10>(v.inputs)
        &&& list_valid::<TransactionOutputV10>(v.outputs)
        &&& frames_fit(doc_fields(v))
    }

    open spec fn encoded(v: TxDocView) -> Seq<u8> {
        join_frames(doc_fields(v))
    }

    open spec fn decoded(bytes: Seq<u8>) -> Option<TxDocView> {
        match fields_of(bytes, 4) {
            Some(f) => match (
                list_decoded::<PublicKey>(f[0]),
                list_decoded::<PublicKey>(f[1]),
                list_decoded::<TransactionInputV10>(f[2]),
                list_decoded::<TransactionOutputV10>(f[3]),
            ) {
                (Some(issuers), Some(recipients), Some(inputs), Some(outputs)) => Some(
                    TxDocView { issuers, recipients, inputs, outputs },
                ),
                _ => None,
            },
            None => None,
        }
    }

    proof fn lemma_round_trip(v: TxDocView) {
        lemma_fields_round_trip(doc_fields(v));
        lemma_list_round_trip::<PublicKey>(v.issuers);
        lemma_list_round_trip::<PublicKey>(v.recipients);
        lemma_list_round_trip::<TransactionInputV10>(v.inputs);
        lemma_list_round_trip::<TransactionOutputV10>(v.outputs);
    }

    fn as_bytes(&self) -> (bytes: Vec<u8>) {
        let a = encode_list(&self.issuers);
        let b = encode_list(&self.recipients);
        let c = encode_list(&self.inputs);
        let d = encode_list(&self.outputs);
        let sizes: (usize, usize, usize, usize) = (a.len(), b.len(), c.len(), d.len());
        frame4(a.as_slice(), b.as_slice(), c.as_slice(), d.as_slice())
    }

    fn from_bytes(bytes: &[u8]) -> (r: Result<Self, StringErr>) {
        let f = match unframe(bytes, 4) {
            Some(f) => f,
            None => {
                return Err(corrupted("damaged document", bytes));
            },
        };
        assert(items_of(f@)[0] == f@[0]@ && items_of(f@)[1] == f@[1]@ && items_of(f@)[2]
            == f@[2]@ && items_of(f@)[3] == f@[3]@);
        match (
            decode_list::<PublicKey>(f[0].as_slice()),
            decode_list::<PublicKey>(f[1].as_slice()),
            decode_list::<TransactionInputV10>(f[2].as_slice()),
            decode_list::<TransactionOutputV10>(f[3].as_slice()),
        ) {
            (Some(issuers), Some(recipients), Some(inputs), Some(outputs)) => Ok(
                TransactionDocumentV10 { issuers, recipients, inputs, outputs },
            ),
            _ => Err(corrupted("damaged document", bytes)),
        }
    }
}

impl Codec for Blockstamp {
    open spec fn valid(v: BlockstampView) -> bool {
        v.hash.len() == 32
    }

    open spec fn encoded(v: BlockstampView) -> Seq<u8> {
        join_frames(seq![be32(v.number), v.hash])
    }

    open spec fn decoded(bytes: Seq<u8>) -> Option<BlockstampView> {
        match fields_of(bytes, 2) {
            Some(f) => match (<u32 as Codec>::decoded(f[0]), <Hash as Codec>::decoded(f[1])) {
                (Some(number), Some(hash)) => Some(BlockstampView { number, hash }),
                _ => None,
            },
            None => None,
        }
    }

    proof fn lemma_round_trip(v: BlockstampView) {
        let fields = seq![be32(v.number), v.hash];
        assert(frames_fit(fields));
        lemma_fields_round_trip(fields);
        lemma_be32_round_trip(v.number);
    }

    fn as_bytes(&self) -> (bytes: Vec<u8>) {
        let a = self.number.as_bytes();
        let b = self.hash.as_bytes();
        frame2(a.as_slice(), b.as_slice())
    }

    fn from_bytes(bytes: &[u8]) -> (r: Result<Self, StringErr>) {
        match unframe(bytes, 2) {
            Some(f) => match (decode_field::<u32>(&f, 0), decode_field::<Hash>(&f, 1)) {
                (Some(number), Some(hash)) => Ok(Blockstamp { number, hash }),
                _ => Err(corrupted("damaged block name", bytes)),
            },
            None => Err(corrupted("damaged block name", bytes)),
        }
    }
}

/// The three fields of a written transaction.
pub open spec fn tx_db_fields(v: TxDbView) -> Seq<Seq<u8>> {
    seq![
        TransactionDocumentV10::encoded(v.tx),
        Blockstamp::encoded(v.written_block),
        <i64 as Codec>::encoded(v.written_time),
    ]
}

impl Codec for TxDbV2 {
    open spec fn valid(v: TxDbView) -> bool {
        &&& TransactionDocumentV10::valid(v.tx)
        &&& Blockstamp::valid(v.written_block)
        &&& frames_fit(tx_db_fields(v))
    }

    open spec fn encoded(v: TxDbView) -> Seq<u8> {
        join_frames(tx_db_fields(v))
    }

    open spec fn decoded(bytes: Seq<u8>) -> Option<TxDbView> {
        match fields_of(bytes, 3) {
            Some(f) => match (
                TransactionDocumentV10::decoded(f[0]),
                Blockstamp::decoded(f[1]),
                <i64 as Codec>::decoded(f[2]),
            ) {
                (Some(tx), Some(written_block), Some(written_time)) => Some(
                    TxDbView { tx, written_block, written_time },
                ),
                _ => None,
            },
            None => None,
        }
    }

    proof fn lemma_round_trip(v: TxDbView) {
        lemma_fields_round_trip(tx_db_fields(v));
        TransactionDocumentV10::lemma_round_trip(v.tx);
        Blockstamp::lemma_round_trip(v.written_block);
        <i64 as Codec>::lemma_round_trip(v.written_time);
    }

    fn as_bytes(&self) -> (bytes: Vec<u8>) {
        let a = self.tx.as_bytes();
        let b = self.written_block.as_bytes();
        let c = self.written_time.as_bytes();
        let sizes: (usize, usize, usize) = (a.len(), b.len(), c.len());
        frame3(a.as_slice(), b.as_slice(), c.as_slice())
    }

    fn from_bytes(bytes: &[u8]) -> (r: Result<Self, StringErr>) {
        match unframe(bytes, 3) {
            Some(f) => match (
                decode_field::<TransactionDocumentV10>(&f, 0),
                decode_field::<Blockstamp>(&f, 1),
                decode_field::<i64>(&f, 2),
            ) {
                (Some(tx), Some(written_block), Some(written_time)) => Ok(
                    TxDbV2 { tx, written_block, written_time },
                ),
                _ => Err(corrupted("damaged transaction", bytes)),
            },
            None => Err(corrupted("damaged transaction", bytes)),
        }
    }
}

} // verus!
