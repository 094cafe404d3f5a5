//! Unspent outputs: each stands in the ledger under a key of its own, made
//! of the script that locks it, the time at which it was written and its
//! name, so that the outputs of one script stand together, oldest first.

use crate::codec::be::{be64, from_be64, lemma_be64_order, lemma_be64_round_trip, push_be64, read_be64};
use crate::codec::frame::push_bytes;
use crate::codec::show::corrupted;
use crate::codec::{lifted64, lowered64, Codec, Key};
use crate::error::StringErr;
use crate::lex::{bytes_lt, lemma_lt_concat};
use crate::values::tx_db::{SourceAmount, UtxoIdV10, UtxoIdView, WalletScript};
use vstd::array::array_as_slice;
use vstd::prelude::*;
use vstd::slice::slice_subrange;

verus! {

/// An unspent output.
#[derive(Clone, Copy, Debug, PartialEq, Eq)]
pub struct UtxoV10 {
    pub id: UtxoIdV10,
    pub amount: SourceAmount,
    pub script: WalletScript,
    pub written_time: i64,
}

/// The key of an unspent output: the script that locks it, the time at
/// which it was written, and its name.
#[derive(Clone, Copy, Debug, PartialEq, Eq)]
pub struct UtxoKeyV1 {
    pub script: WalletScript,
    pub written_time: i64,
    pub id: UtxoIdV10,
}

/// The key of an unspent output in the model.
pub struct UtxoKeyView {
    pub script: Seq<u8>,
    pub written_time: i64,
    pub id: UtxoIdView,
}

impl View for UtxoKeyV1 {
    type V = UtxoKeyView;

    open spec fn view(&self) -> UtxoKeyView {
        UtxoKeyView { script: self.script@, written_time: self.written_time, id: self.id@ }
    }
}

/// The last 48 bytes of a key: the time, and the name of the output.
pub open spec fn key_tail(v: UtxoKeyView) -> Seq<u8> {
    be64(lifted64(v.written_time)) + (v.id.tx_hash + be64(v.id.output_index as u64))
}

impl Codec for UtxoKeyV1 {
    open spec fn valid(v: UtxoKeyView) -> bool {
        v.script.len() == 32 && v.id.tx_hash.len() == 32
    }

    open spec fn encoded(v: UtxoKeyView) -> Seq<u8> {
        v.script + key_tail(v)
    }

    open spec fn decoded(bytes: Seq<u8>) -> Option<UtxoKeyView> {
        if bytes.len() == 80 && from_be64(bytes.subrange(72, 80)) <= usize::MAX {
            Some(
                UtxoKeyView {
                    script: bytes.subrange(0, 32),
                    written_time: lowered64(from_be64(bytes.subrange(32, 40))),
                    id: UtxoIdView {
                        tx_hash: bytes.subrange(40, 72),
                        output_index: from_be64(bytes.subrange(72, 80)) as usize,
                    },
                },
            )
        } else {
            None
        }
    }

    proof fn lemma_round_trip(v: UtxoKeyView) {
        let bytes = Self::encoded(v);
        lemma_be64_round_trip(lifted64(v.written_time));
        lemma_be64_round_trip(v.id.output_index as u64);
        assert(bytes.subrange(0, 32) =~= v.script);
        assert(bytes.subrange(32, 40) =~= be64(lifted64(v.written_time)));
        assert(bytes.subrange(40, 72) =~= v.id.tx_hash);
        assert(bytes.subrange(72, 80) =~= be64(v.id.output_index as u64));
    }

    fn as_bytes(&self) -> (bytes: Vec<u8>) {
        let mut out: Vec<u8> = Vec::new();
        push_bytes(&mut out, array_as_slice(&self.script));
        let up: u64 = (self.written_time as i128 + 0x8000_0000_0000_0000i128) as u64;
        push_be64(&mut out, up);
        push_bytes(&mut out, array_as_slice(&self.id.tx_hash));
        push_be64(&mut out, self.id.output_index as u64);
        assert(out@ =~= Self::encoded(self@));
        out
    }

    fn from_bytes(bytes: &[u8]) -> (r: Result<Self, StringErr>) {
        if bytes.len() != 80 {
            return Err(corrupted("an 80-byte key of an output was expected", bytes));
        }
        let index: u64 = read_be64(bytes, 72);
        if index > usize::MAX as u64 {
            return Err(corrupted("the index of the output is too large", bytes));
        }
        let script = match <WalletScript as Codec>::from_bytes(slice_subrange(bytes, 0, 32)) {
            Ok(script) => script,
            Err(_) => {
                return Err(corrupted("an 80-byte key of an output was expected", bytes));
            },
        };
        let tx_hash = match <WalletScript as Codec>::from_bytes(slice_subrange(bytes, 40, 72)) {
            Ok(tx_hash) => tx_hash,
            Err(_) => {
                return Err(corrupted("an 80-byte key of an output was expected", bytes));
            },
        };
        let up: u64 = read_be64(bytes, 32);
        let written_time: i64 = (up as i128 - 0x8000_0000_0000_0000i128) as i64;
        Ok(UtxoKeyV1 { script, written_time, id: UtxoIdV10 { tx_hash, output_index: index as usize } })
    }
}

impl Key for UtxoKeyV1 {
    open spec fn key_lt(a: UtxoKeyView, b: UtxoKeyView) -> bool {
        ||| bytes_lt(a.script, b.script)
        ||| a.script == b.script && a.written_time < b.written_time
        ||| a.script == b.script && a.written_time == b.written_time && bytes_lt(
            a.id.tx_hash,
            b.id.tx_hash,
        )
        ||| a.script == b.script && a.written_time == b.written_time && a.id.tx_hash
            == b.id.tx_hash && a.id.output_index < b.id.output_index
    }

    proof fn lemma_order(a: UtxoKeyView, b: UtxoKeyView) {
        let (ta, tb) = (be64(lifted64(a.written_time)), be64(lifted64(b.written_time)));
        let (ia, ib) = (be64(a.id.output_index as u64), be64(b.id.output_index as u64));
        lemma_lt_concat(a.script, key_tail(a), b.script, key_tail(b));
        lemma_lt_concat(ta, a.id.tx_hash + ia, tb, b.id.tx_hash + ib);
        lemma_lt_concat(a.id.tx_hash, ia, b.id.tx_hash, ib);
        lemma_be64_order(lifted64(a.written_time), lifted64(b.written_time));
        lemma_be64_order(a.id.output_index as u64, b.id.output_index as u64);
        lemma_be64_round_trip(lifted64(a.written_time));
        lemma_be64_round_trip(lifted64(b.written_time));
    }
}

} // verus!
