//! Unspent outputs in the ledger: how one is written and how one is
//! removed.

use crate::backend::{Backend, RawMap};
use crate::codec::show::{decimal_of, decimal_text, hex_of, hex_text};
use crate::codec::Codec;
use crate::error::KvError;
use crate::event::EventView;
use crate::gva_v1::{GvaEvents, GvaState, GvaV1DbTx};
use crate::values::tx_db::{SourceAmount, UtxoIdV10, UtxoIdView, WalletScript};
use crate::values::utxo::{UtxoKeyV1, UtxoKeyView, UtxoV10};
use vstd::array::array_as_slice;
use vstd::prelude::*;
use vstd::string::*;

verus! {

/// Why a change to the ledger cannot be made.
pub enum Fault {
    /// What is stored under a key that had to be read is damaged.
    Damaged,
    /// The output with this name is spent by a transaction, and the
    /// transaction that made it is not stored, or has no such output.
    Missing(UtxoIdView),
}

/// The name of an output as text: the digest of its transaction in
/// hexadecimal, a colon, and its index.
pub open spec fn id_text(id: UtxoIdView) -> Seq<char> {
    hex_text(id.tx_hash) + ":"@ + decimal_text(id.output_index as nat)
}

/// The message for an output whose origin is not found.
pub open spec fn missing_text(id: UtxoIdView) -> Seq<char> {
    "Not found origin tx of uxto "@ + id_text(id)
}

/// The error that reports a fault: a `DeserError` for damaged bytes, and
/// for a missing origin a `DbCorrupted` whose message names the output.
pub open spec fn reports(e: KvError, fault: Fault) -> bool {
    match fault {
        Fault::Damaged => e is DeserError,
        Fault::Missing(id) => e matches KvError::DbCorrupted(message) && message@ == missing_text(
            id,
        ),
    }
}

/// The error for an output whose origin is not found.
pub fn missing_origin(id: &UtxoIdV10) -> (e: KvError)
    ensures
        e matches KvError::DbCorrupted(message) && message@ == missing_text(id@),
        reports(e, Fault::Missing(id@)),
{
    let message = String::from_str("Not found origin tx of uxto ").concat(
        hex_of(array_as_slice(&id.tx_hash)).as_str(),
    ).concat(":").concat(decimal_of(id.output_index).as_str());
    assert(message@ =~= missing_text(id@));
    KvError::DbCorrupted(message)
}

/// The key of the output `id`, locked by `script` and written at `time`.
pub open spec fn key_view(script: Seq<u8>, time: i64, id: UtxoIdView) -> UtxoKeyView {
    UtxoKeyView { script, written_time: time, id }
}

/// The stored key of the output `id`, locked by `script` and written at
/// `time`.
pub open spec fn utxo_key(script: Seq<u8>, time: i64, id: UtxoIdView) -> Seq<u8> {
    UtxoKeyV1::encoded(key_view(script, time, id))
}

/// The unspent outputs after one more was written: its amount stands under
/// its key.
pub open spec fn utxo_written(
    utxos: RawMap,
    id: UtxoIdView,
    amount: SourceAmount,
    script: Seq<u8>,
    time: i64,
) -> RawMap {
    utxos.insert(utxo_key(script, time, id), SourceAmount::encoded(amount))
}

/// The unspent outputs after the output `id` was removed; the others that
/// `script` locks stay.
pub open spec fn utxo_removed(utxos: RawMap, id: UtxoIdView, script: Seq<u8>, time: i64) -> RawMap {
    utxos.remove(utxo_key(script, time, id))
}

/// Events of the unspent outputs alone.
pub open spec fn utxo_events(events: Seq<EventView<UtxoKeyView, SourceAmount>>) -> GvaEvents {
    GvaEvents { utxos_by_script: events, ..GvaEvents::none() }
}

/// `now` is `was` and then `more`, collection by collection.
pub proof fn lemma_followed(was: GvaEvents, more: GvaEvents, now: GvaEvents)
    requires
        now.txs =~= was.txs + more.txs,
        now.txs_by_issuer =~= was.txs_by_issuer + more.txs_by_issuer,
        now.txs_by_recipient =~= was.txs_by_recipient + more.txs_by_recipient,
        now.utxos_by_script =~= was.utxos_by_script + more.utxos_by_script,
    ensures
        now == was.followed_by(more),
{
}

/// Stages the writing of one unspent output.
pub fn write_utxo_v10<'a, B: Backend>(gva_db: &mut GvaV1DbTx<'a, B>, utxo: UtxoV10)
    ensures
        final(gva_db).base() == old(gva_db).base(),
        final(gva_db).reliable() == old(gva_db).reliable(),
        final(gva_db).pending() == (GvaState {
            utxos_by_script: utxo_written(
                old(gva_db).pending().utxos_by_script,
                utxo.id@,
                utxo.amount,
                utxo.script@,
                utxo.written_time,
            ),
            ..old(gva_db).pending()
        }),
        final(gva_db).staged_views() == old(gva_db).staged_views().followed_by(
            utxo_events(
                seq![
                    EventView::Upsert {
                        key: key_view(utxo.script@, utxo.written_time, utxo.id@),
                        value: utxo.amount,
                    },
                ],
            ),
        ),
{
    let key = UtxoKeyV1 { script: utxo.script, written_time: utxo.written_time, id: utxo.id };
    gva_db.utxos_by_script.upsert(key, utxo.amount);
    proof {
        let more = utxo_events(
            seq![
                EventView::Upsert {
                    key: key_view(utxo.script@, utxo.written_time, utxo.id@),
                    value: utxo.amount,
                },
            ],
        );
        lemma_followed(old(gva_db).staged_views(), more, gva_db.staged_views());
    }
}

/// Stages the removal of the unspent output `utxo_id`, which `utxo_script`
/// locks and which was written at `written_time`.
pub fn remove_utxo_v10<'a, B: Backend>(
    gva_db: &mut GvaV1DbTx<'a, B>,
    utxo_id: &UtxoIdV10,
    utxo_script: &WalletScript,
    written_time: i64,
)
    ensures
        final(gva_db).base() == old(gva_db).base(),
        final(gva_db).reliable() == old(gva_db).reliable(),
        final(gva_db).pending() == (GvaState {
            utxos_by_script: utxo_removed(
                old(gva_db).pending().utxos_by_script,
                utxo_id@,
                utxo_script@,
                written_time,
            ),
            ..old(gva_db).pending()
        }),
        final(gva_db).staged_views() == old(gva_db).staged_views().followed_by(
            utxo_events(
                seq![EventView::Remove { key: key_view(utxo_script@, written_time, utxo_id@) }],
            ),
        ),
{
    gva_db.utxos_by_script.remove(UtxoKeyV1 { script: *utxo_script, written_time, id: *utxo_id });
    proof {
        let more = utxo_events(
            seq![EventView::Remove { key: key_view(utxo_script@, written_time, utxo_id@) }],
        );
        lemma_followed(old(gva_db).staged_views(), more, gva_db.staged_views());
    }
}

} // verus!
