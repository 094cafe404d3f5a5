//! Transactions in the ledger: how one is written, how it is taken out
//! and how the writing of one is undone.
//!
//! Each of these stages all its changes in one write transaction and
//! commits them together, so that a fault found on the way leaves the
//! ledger as it was. Undoing the writing of a transaction leaves no trace
//! of it: a set of digests that becomes empty is taken out of its index,
//! and each unspent output is written and removed by its own name.

pub mod round_trip;

use crate::backend::{Backend, RawMap};
use crate::codec::record::views;
use crate::codec::Codec;
use crate::error::{KvError, KvResult};
use crate::event::{event_views, EventView};
use crate::gva_v1::{GvaEvents, GvaState, GvaV1Db, GvaV1DbBatch, GvaV1DbTx};
use crate::transaction::TxColRw;
use crate::utxos::{
    key_view, lemma_followed, missing_origin, remove_utxo_v10, reports, utxo_events, utxo_removed,
    utxo_written, write_utxo_v10, Fault,
};
use crate::values::hash_set::{set_with, set_without, HashBTSetV2};
use crate::values::tx_db;
use crate::values::tx_db::{
    Blockstamp, BlockstampView, InputView, OutputView, PublicKey, SourceAmount, SourceIdV10,
    SourceIdView, TransactionDocumentV10, TransactionInputV10, TransactionOutputV10, TxDbV2,
    TxDbView, TxDocView, UtxoIdV10, UtxoIdView, WalletScript,
};
use crate::values::utxo::{UtxoKeyView, UtxoV10};
use vstd::prelude::*;

verus! {

/// The events of an index of digests, in the model.
pub type IndexEvents = Seq<EventView<Seq<u8>, Seq<Seq<u8>>>>;

/// The events of the unspent outputs, in the model.
pub type UtxoEvents = Seq<EventView<UtxoKeyView, SourceAmount>>;

/// The set of digests that `index` holds for `who`: the empty set where it
/// holds none, and nothing where what it holds is damaged.
pub open spec fn stored_set(index: RawMap, who: Seq<u8>) -> Option<Seq<Seq<u8>>> {
    if index.contains_key(who) {
        HashBTSetV2::decoded(index[who])
    } else {
        Some(Seq::<Seq<u8>>::empty())
    }
}

/// The index after the digest `hash` was put into (`add`) or taken out of
/// the set of `who`. A key is never left with an empty set: where taking
/// the digest out leaves nothing, the key is removed, and a key that has
/// no set is given none.
pub open spec fn index_put(index: RawMap, who: Seq<u8>, hash: Seq<u8>, add: bool) -> Result<
    RawMap,
    Fault,
> {
    match stored_set(index, who) {
        None => Err(Fault::Damaged),
        Some(set) => if add {
            Ok(index.insert(who, HashBTSetV2::encoded(set_with(set, hash))))
        } else if !index.contains_key(who) {
            Ok(index)
        } else if set_without(set, hash).len() == 0 {
            Ok(index.remove(who))
        } else {
            Ok(index.insert(who, HashBTSetV2::encoded(set_without(set, hash))))
        },
    }
}

/// The event that tells of `index_put`: the new set of `who`, the removal
/// of `who`, or nothing where nothing is changed.
pub open spec fn index_event(index: RawMap, who: Seq<u8>, hash: Seq<u8>, add: bool) -> IndexEvents {
    match stored_set(index, who) {
        None => Seq::empty(),
        Some(set) => if add {
            seq![EventView::Upsert { key: who, value: set_with(set, hash) }]
        } else if !index.contains_key(who) {
            Seq::empty()
        } else if set_without(set, hash).len() == 0 {
            seq![EventView::Remove { key: who }]
        } else {
            seq![EventView::Upsert { key: who, value: set_without(set, hash) }]
        },
    }
}

/// The index after `index_put` for each of `whos` from position `from`
/// on, in their order.
pub open spec fn index_put_all(
    index: RawMap,
    whos: Seq<Seq<u8>>,
    hash: Seq<u8>,
    add: bool,
    from: int,
) -> Result<RawMap, Fault>
    decreases whos.len() - from,
{
    if from < 0 || from >= whos.len() {
        Ok(index)
    } else {
        match index_put(index, whos[from], hash, add) {
            Ok(next) => index_put_all(next, whos, hash, add, from + 1),
            Err(fault) => Err(fault),
        }
    }
}

/// The events that tell of `index_put_all`.
pub open spec fn index_events_all(
    index: RawMap,
    whos: Seq<Seq<u8>>,
    hash: Seq<u8>,
    add: bool,
    from: int,
) -> IndexEvents
    decreases whos.len() - from,
{
    if from < 0 || from >= whos.len() {
        Seq::empty()
    } else {
        match index_put(index, whos[from], hash, add) {
            Ok(next) => index_event(index, whos[from], hash, add) + index_events_all(
                next,
                whos,
                hash,
                add,
                from + 1,
            ),
            Err(_) => Seq::empty(),
        }
    }
}

/// The script and the time of writing of the output that `id` names.
pub open spec fn origin_of(txs: RawMap, id: UtxoIdView) -> Result<(Seq<u8>, i64), Fault> {
    if !txs.contains_key(id.tx_hash) {
        Err(Fault::Missing(id))
    } else {
        match TxDbV2::decoded(txs[id.tx_hash]) {
            Some(origin) => if id.output_index < origin.tx.outputs.len() {
                Ok((origin.tx.outputs[id.output_index as int].script, origin.written_time))
            } else {
                Err(Fault::Missing(id))
            },
            None => Err(Fault::Damaged),
        }
    }
}

/// The key of the output that `input` spends; none for a dividend.
pub open spec fn spent_key(txs: RawMap, input: InputView) -> Result<Option<UtxoKeyView>, Fault> {
    match input.id {
        SourceIdView::Ud { .. } => Ok(None),
        SourceIdView::Utxo(id) => match origin_of(txs, id) {
            Ok((script, time)) => Ok(Some(key_view(script, time, id))),
            Err(fault) => Err(fault),
        },
    }
}

/// The unspent outputs after the output that `input` spends was removed.
/// A dividend changes nothing.
pub open spec fn input_consumed(txs: RawMap, utxos: RawMap, input: InputView) -> Result<
    RawMap,
    Fault,
> {
    match spent_key(txs, input) {
        Ok(None) => Ok(utxos),
        Ok(Some(key)) => Ok(utxo_removed(utxos, key.id, key.script, key.written_time)),
        Err(fault) => Err(fault),
    }
}

/// The event that tells of `input_consumed`.
pub open spec fn input_consumed_event(txs: RawMap, input: InputView) -> UtxoEvents {
    match spent_key(txs, input) {
        Ok(Some(key)) => seq![EventView::Remove { key }],
        _ => Seq::empty(),
    }
}

/// The unspent outputs after `input_consumed` for each of the inputs from
/// position `from` on, in their order.
pub open spec fn inputs_consumed(
    txs: RawMap,
    utxos: RawMap,
    inputs: Seq<InputView>,
    from: int,
) -> Result<RawMap, Fault>
    decreases inputs.len() - from,
{
    if from < 0 || from >= inputs.len() {
        Ok(utxos)
    } else {
        match input_consumed(txs, utxos, inputs[from]) {
            Ok(next) => inputs_consumed(txs, next, inputs, from + 1),
            Err(fault) => Err(fault),
        }
    }
}

/// The events that tell of `inputs_consumed`.
pub open spec fn inputs_consumed_events(txs: RawMap, inputs: Seq<InputView>, from: int) -> UtxoEvents
    decreases inputs.len() - from,
{
    if from < 0 || from >= inputs.len() {
        Seq::empty()
    } else {
        input_consumed_event(txs, inputs[from]) + inputs_consumed_events(txs, inputs, from + 1)
    }
}

/// The name of the output at position `at` of the transaction `hash`.
pub open spec fn output_id(hash: Seq<u8>, at: int) -> UtxoIdView {
    UtxoIdView { tx_hash: hash, output_index: at as usize }
}

/// The key of the output at position `at` of the transaction `hash`,
/// written at `time`.
pub open spec fn output_key(outputs: Seq<OutputView>, hash: Seq<u8>, time: i64, at: int) -> UtxoKeyView {
    key_view(outputs[at].script, time, output_id(hash, at))
}

/// The unspent outputs after the outputs from position `from` on of the
/// transaction `hash` were written at `time`.
pub open spec fn outputs_created(
    utxos: RawMap,
    outputs: Seq<OutputView>,
    hash: Seq<u8>,
    time: i64,
    from: int,
) -> RawMap
    decreases outputs.len() - from,
{
    if from < 0 || from >= outputs.len() {
        utxos
    } else {
        outputs_created(
            utxo_written(
                utxos,
                output_id(hash, from),
                outputs[from].amount,
                outputs[from].script,
                time,
            ),
            outputs,
            hash,
            time,
            from + 1,
        )
    }
}

/// The events that tell of `outputs_created`.
pub open spec fn outputs_created_events(
    outputs: Seq<OutputView>,
    hash: Seq<u8>,
    time: i64,
    from: int,
) -> UtxoEvents
    decreases outputs.len() - from,
{
    if from < 0 || from >= outputs.len() {
        Seq::empty()
    } else {
        seq![
            EventView::Upsert {
                key: output_key(outputs, hash, time, from),
                value: outputs[from].amount,
            },
        ] + outputs_created_events(outputs, hash, time, from + 1)
    }
}

/// The unspent outputs after the outputs from position `from` on of the
/// transaction `hash`, written at `time`, were removed.
pub open spec fn outputs_removed(
    utxos: RawMap,
    outputs: Seq<OutputView>,
    hash: Seq<u8>,
    time: i64,
    from: int,
) -> RawMap
    decreases outputs.len() - from,
{
    if from < 0 || from >= outputs.len() {
        utxos
    } else {
        outputs_removed(
            utxo_removed(utxos, output_id(hash, from), outputs[from].script, time),
            outputs,
            hash,
            time,
            from + 1,
        )
    }
}

/// The events that tell of `outputs_removed`.
pub open spec fn outputs_removed_events(
    outputs: Seq<OutputView>,
    hash: Seq<u8>,
    time: i64,
    from: int,
) -> UtxoEvents
    decreases outputs.len() - from,
{
    if from < 0 || from >= outputs.len() {
        Seq::empty()
    } else {
        seq![EventView::Remove { key: output_key(outputs, hash, time, from) }]
            + outputs_removed_events(outputs, hash, time, from + 1)
    }
}

/// The unspent outputs after the output that `input` had spent was written
/// again, with the amount of the input, under the script and at the time
/// of the transaction that made it. A dividend changes nothing.
pub open spec fn input_restored(txs: RawMap, utxos: RawMap, input: InputView) -> Result<
    RawMap,
    Fault,
> {
    match spent_key(txs, input) {
        Ok(None) => Ok(utxos),
        Ok(Some(key)) => Ok(utxo_written(utxos, key.id, input.amount, key.script, key.written_time)),
        Err(fault) => Err(fault),
    }
}

/// The event that tells of `input_restored`.
pub open spec fn input_restored_event(txs: RawMap, input: InputView) -> UtxoEvents {
    match spent_key(txs, input) {
        Ok(Some(key)) => seq![EventView::Upsert { key, value: input.amount }],
        _ => Seq::empty(),
    }
}

/// The unspent outputs after `input_restored` for each of the inputs from
/// position `from` on, in their order.
pub open spec fn inputs_restored(
    txs: RawMap,
    utxos: RawMap,
    inputs: Seq<InputView>,
    from: int,
) -> Result<RawMap, Fault>
    decreases inputs.len() - from,
{
    if from < 0 || from >= inputs.len() {
        Ok(utxos)
    } else {
        match input_restored(txs, utxos, inputs[from]) {
            Ok(next) => inputs_restored(txs, next, inputs, from + 1),
            Err(fault) => Err(fault),
        }
    }
}

/// The events that tell of `inputs_restored`.
pub open spec fn inputs_restored_events(txs: RawMap, inputs: Seq<InputView>, from: int) -> UtxoEvents
    decreases inputs.len() - from,
{
    if from < 0 || from >= inputs.len() {
        Seq::empty()
    } else {
        input_restored_event(txs, inputs[from]) + inputs_restored_events(txs, inputs, from + 1)
    }
}

/// The ledger after the transaction `tx` with the digest `hash` was
/// written in block `block` at `time`: its digest is in the set of each
/// issuer and of each recipient, the outputs that it spends are removed,
/// its own outputs are written, and it is stored itself.
pub open spec fn tx_written(
    s: GvaState,
    block: BlockstampView,
    time: i64,
    hash: Seq<u8>,
    tx: TxDocView,
) -> Result<GvaState, Fault> {
    match index_put_all(s.txs_by_issuer, tx.issuers, hash, true, 0) {
        Err(fault) => Err(fault),
        Ok(txs_by_issuer) => match index_put_all(s.txs_by_recipient, tx.recipients, hash, true, 0) {
            Err(fault) => Err(fault),
            Ok(txs_by_recipient) => match inputs_consumed(s.txs, s.utxos_by_script, tx.inputs, 0) {
                Err(fault) => Err(fault),
                Ok(spent) => Ok(
                    GvaState {
                        txs: s.txs.insert(
                            hash,
                            TxDbV2::encoded(
                                TxDbView { tx, written_block: block, written_time: time },
                            ),
                        ),
                        txs_by_issuer,
                        txs_by_recipient,
                        utxos_by_script: outputs_created(spent, tx.outputs, hash, time, 0),
                    },
                ),
            },
        },
    }
}

/// The events that tell of `tx_written`: for the transactions, one
/// `Upsert` of the written transaction; for each index, the new set of
/// each issuer or recipient; for the unspent outputs, a `Remove` of each
/// output that is spent and then an `Upsert` of each that is made.
pub open spec fn tx_written_events(
    s: GvaState,
    block: BlockstampView,
    time: i64,
    hash: Seq<u8>,
    tx: TxDocView,
) -> GvaEvents {
    GvaEvents {
        txs: seq![
            EventView::Upsert {
                key: hash,
                value: TxDbView { tx, written_block: block, written_time: time },
            },
        ],
        txs_by_issuer: index_events_all(s.txs_by_issuer, tx.issuers, hash, true, 0),
        txs_by_recipient: index_events_all(s.txs_by_recipient, tx.recipients, hash, true, 0),
        utxos_by_script: inputs_consumed_events(s.txs, tx.inputs, 0) + outputs_created_events(
            tx.outputs,
            hash,
            time,
            0,
        ),
    }
}

/// The ledger after the transaction `tx` with the digest `hash` was taken
/// out: its digest is in no issuer's and no recipient's set, and it is not
/// stored itself.
pub open spec fn tx_removed(s: GvaState, hash: Seq<u8>, tx: TxDocView) -> Result<GvaState, Fault> {
    match index_put_all(s.txs_by_issuer, tx.issuers, hash, false, 0) {
        Err(fault) => Err(fault),
        Ok(txs_by_issuer) => match index_put_all(
            s.txs_by_recipient,
            tx.recipients,
            hash,
            false,
            0,
        ) {
            Err(fault) => Err(fault),
            Ok(txs_by_recipient) => Ok(
                GvaState { txs: s.txs.remove(hash), txs_by_issuer, txs_by_recipient, ..s },
            ),
        },
    }
}

/// The events that tell of `tx_removed`: for the transactions, one
/// `Remove` of the digest.
pub open spec fn tx_removed_events(s: GvaState, hash: Seq<u8>, tx: TxDocView) -> GvaEvents {
    GvaEvents {
        txs: seq![EventView::Remove { key: hash }],
        txs_by_issuer: index_events_all(s.txs_by_issuer, tx.issuers, hash, false, 0),
        txs_by_recipient: index_events_all(s.txs_by_recipient, tx.recipients, hash, false, 0),
        utxos_by_script: Seq::empty(),
    }
}

/// The ledger after the writing of the transaction with the digest `hash`
/// was undone, with the document that was stored; the ledger as it is and
/// no document where no such transaction is stored.
pub open spec fn tx_reverted(s: GvaState, hash: Seq<u8>) -> Result<
    (GvaState, Option<TxDocView>),
    Fault,
> {
    if !s.txs.contains_key(hash) {
        Ok((s, None))
    } else {
        match TxDbV2::decoded(s.txs[hash]) {
            None => Err(Fault::Damaged),
            Some(stored) => match inputs_restored(
                s.txs,
                outputs_removed(s.utxos_by_script, stored.tx.outputs, hash, stored.written_time, 0),
                stored.tx.inputs,
                0,
            ) {
                Err(fault) => Err(fault),
                Ok(utxos_by_script) => match tx_removed(
                    GvaState { utxos_by_script, ..s },
                    hash,
                    stored.tx,
                ) {
                    Err(fault) => Err(fault),
                    Ok(after) => Ok((after, Some(stored.tx))),
                },
            },
        }
    }
}

/// The events that tell of `tx_reverted`: none where no such transaction
/// is stored.
pub open spec fn tx_reverted_events(s: GvaState, hash: Seq<u8>) -> GvaEvents {
    if !s.txs.contains_key(hash) {
        GvaEvents::none()
    } else {
        match TxDbV2::decoded(s.txs[hash]) {
            None => GvaEvents::none(),
            Some(stored) => utxo_events(
                outputs_removed_events(stored.tx.outputs, hash, stored.written_time, 0)
                    + inputs_restored_events(s.txs, stored.tx.inputs, 0),
            ).followed_by(tx_removed_events(s, hash, stored.tx)),
        }
    }
}

/// Stages `index_put` on one index.
fn stage_index_put<'a, B: Backend>(
    index: &mut TxColRw<'a, B, PublicKey, HashBTSetV2>,
    who: PublicKey,
    hash: &tx_db::Hash,
    add: bool,
) -> (r: KvResult<()>)
    ensures
        final(index).base() == old(index).base(),
        final(index).reliable() == old(index).reliable(),
        match r {
            Err(KvError::BackendError(_)) => !old(index).reliable(),
            Ok(_) => {
                &&& index_put(old(index).pending(), who@, hash@, add) == Ok::<RawMap, Fault>(
                    final(index).pending(),
                )
                &&& event_views(final(index).staged()) == event_views(old(index).staged())
                    + index_event(old(index).pending(), who@, hash@, add)
            },
            Err(e) => e is DeserError && index_put(old(index).pending(), who@, hash@, add) == Err::<
                RawMap,
                Fault,
            >(Fault::Damaged),
        },
{
    let found = match index.get(&who) {
        Ok(found) => found,
        Err(e) => {
            return Err(e);
        },
    };
    let ghost was = event_views(index.staged());
    if add {
        let mut set = match found {
            Some(set) => set,
            None => HashBTSetV2::new(),
        };
        let _ = set.insert(*hash);
        index.upsert(who, set);
        assert(event_views(index.staged()) =~= was + seq![
            EventView::Upsert { key: who@, value: set@ },
        ]);
    } else {
        match found {
            None => {
                assert(was + Seq::<EventView<Seq<u8>, Seq<Seq<u8>>>>::empty() =~= was);
            },
            Some(set) => {
                let mut set = set;
                let _ = set.remove(hash);
                if set.len() == 0 {
                    index.remove(who);
                    assert(event_views(index.staged()) =~= was + seq![
                        EventView::<Seq<u8>, Seq<Seq<u8>>>::Remove { key: who@ },
                    ]);
                } else {
                    index.upsert(who, set);
                    assert(event_views(index.staged()) =~= was + seq![
                        EventView::Upsert { key: who@, value: set@ },
                    ]);
                }
            },
        }
    }
    Ok(())
}

/// Stages `index_put` on one index for each key of `whos`.
fn stage_index_put_all<'a, B: Backend>(
    index: &mut TxColRw<'a, B, PublicKey, HashBTSetV2>,
    whos: &Vec<PublicKey>,
    hash: &tx_db::Hash,
    add: bool,
) -> (r: KvResult<()>)
    ensures
        final(index).base() == old(index).base(),
        final(index).reliable() == old(index).reliable(),
        match r {
            Err(KvError::BackendError(_)) => !old(index).reliable(),
            Ok(_) => {
                &&& index_put_all(old(index).pending(), views(whos@), hash@, add, 0) == Ok::<
                    RawMap,
                    Fault,
                >(final(index).pending())
                &&& event_views(final(index).staged()) == event_views(old(index).staged())
                    + index_events_all(old(index).pending(), views(whos@), hash@, add, 0)
            },
            Err(e) => e is DeserError && index_put_all(
                old(index).pending(),
                views(whos@),
                hash@,
                add,
                0,
            ) == Err::<RawMap, Fault>(Fault::Damaged),
        },
{
    let ghost keys = views(whos@);
    let ghost goal = index_put_all(index.pending(), keys, hash@, add, 0);
    let ghost told = event_views(index.staged()) + index_events_all(
        index.pending(),
        keys,
        hash@,
        add,
        0,
    );
    let mut i: usize = 0;
    while i < whos.len()
        invariant
            i <= whos@.len(),
            keys == views(whos@),
            index.base() == old(index).base(),
            index.reliable() == old(index).reliable(),
            goal == index_put_all(old(index).pending(), keys, hash@, add, 0),
            goal == index_put_all(index.pending(), keys, hash@, add, i as int),
            told == event_views(old(index).staged()) + index_events_all(
                old(index).pending(),
                keys,
                hash@,
                add,
                0,
            ),
            told == event_views(index.staged()) + index_events_all(
                index.pending(),
                keys,
                hash@,
                add,
                i as int,
            ),
        decreases whos.len() - i,
    {
        assert(keys[i as int] == whos@[i as int]@);
        let ghost before = index.pending();
        let ghost before_told = event_views(index.staged());
        match stage_index_put(index, whos[i], hash, add) {
            Ok(_) => {
                assert(told =~= event_views(index.staged()) + index_events_all(
                    index.pending(),
                    keys,
                    hash@,
                    add,
                    i as int + 1,
                )) by {
                    let one = index_event(before, keys[i as int], hash@, add);
                    let rest = index_events_all(index.pending(), keys, hash@, add, i as int + 1);
                    assert(index_events_all(before, keys, hash@, add, i as int) == one + rest);
                    assert(before_told + (one + rest) =~= (before_told + one) + rest);
                }
            },
            Err(e) => {
                assert(e is BackendError ==> !old(index).reliable());
                assert(!(e is BackendError) ==> index_put(before, keys[i as int], hash@, add)
                    == Err::<RawMap, Fault>(Fault::Damaged));
                return Err(e);
            },
        }
        i = i + 1;
    }
    assert(told =~= event_views(index.staged()));
    Ok(())
}

/// The script and the time of writing of the output that `id` names, as
/// the staged changes leave them. Where the transaction that made the
/// output is not stored, or has no such output, the error names the
/// output.
fn origin<'a, B: Backend>(txs: &TxColRw<'a, B, tx_db::Hash, TxDbV2>, id: &UtxoIdV10) -> (r: KvResult<
    (WalletScript, i64),
>)
    ensures
        match r {
            Err(KvError::BackendError(_)) => !txs.reliable(),
            Ok((script, time)) => origin_of(txs.pending(), id@) == Ok::<(Seq<u8>, i64), Fault>(
                (script@, time),
            ),
            Err(e) => exists|fault: Fault| #[trigger]
                reports(e, fault) && origin_of(txs.pending(), id@) == Err::<
                    (Seq<u8>, i64),
                    Fault,
                >(fault),
        },
{
    match txs.get(&id.tx_hash) {
        Ok(Some(stored)) => {
            if id.output_index < stored.tx.outputs.len() {
                assert(stored@.tx.outputs[id.output_index as int]
                    == stored.tx.outputs@[id.output_index as int]@);
                Ok((stored.tx.outputs[id.output_index].script, stored.written_time))
            } else {
                let e = missing_origin(id);
                assert(reports(e, Fault::Missing(id@)));
                Err(e)
            }
        },
        Ok(None) => {
            let e = missing_origin(id);
            assert(reports(e, Fault::Missing(id@)));
            Err(e)
        },
        Err(e) => {
            assert(e is DeserError ==> reports(e, Fault::Damaged));
            Err(e)
        },
    }
}

/// What a step that changes the unspent outputs alone leaves: the new
/// outputs, and the events that tell of them.
pub open spec fn utxos_changed<'a, B: Backend>(
    was: &GvaV1DbTx<'a, B>,
    now: &GvaV1DbTx<'a, B>,
    utxos_by_script: RawMap,
    events: UtxoEvents,
) -> bool {
    &&& now.pending() == (GvaState { utxos_by_script, ..was.pending() })
    &&& now.staged_views() == was.staged_views().followed_by(utxo_events(events))
}

impl<'a, B: Backend> GvaV1DbTx<'a, B> {
    /// The unspent outputs alone were changed, once and then once more.
    proof fn lemma_utxos_twice(
        was: &Self,
        between: &Self,
        now: &Self,
        first: RawMap,
        first_events: UtxoEvents,
        second: RawMap,
        second_events: UtxoEvents,
    )
        requires
            utxos_changed(was, between, first, first_events),
            utxos_changed(between, now, second, second_events),
        ensures
            utxos_changed(was, now, second, first_events + second_events),
    {
        lemma_followed(
            was.staged_views(),
            utxo_events(first_events + second_events),
            now.staged_views(),
        );
    }

    /// Nothing was changed and nothing was staged.
    proof fn lemma_utxos_same(was: &Self)
        ensures
            utxos_changed(was, was, was.pending().utxos_by_script, Seq::empty()),
    {
        lemma_followed(was.staged_views(), utxo_events(Seq::empty()), was.staged_views());
    }

    /// Stages the removal of the output that `input` spends.
    fn consume_input(&mut self, input: &TransactionInputV10) -> (r: KvResult<()>)
        ensures
            final(self).base() == old(self).base(),
            final(self).reliable() == old(self).reliable(),
            match r {
                Err(KvError::BackendError(_)) => !old(self).reliable(),
                Ok(_) => {
                    let was = old(self).pending();
                    match input_consumed(was.txs, was.utxos_by_script, input@) {
                        Ok(utxos_by_script) => utxos_changed(
                            old(self),
                            final(self),
                            utxos_by_script,
                            input_consumed_event(was.txs, input@),
                        ),
                        Err(_) => false,
                    }
                },
                Err(e) => {
                    let was = old(self).pending();
                    exists|fault: Fault| #[trigger]
                        reports(e, fault) && input_consumed(was.txs, was.utxos_by_script, input@)
                            == Err::<RawMap, Fault>(fault)
                },
            },
    {
        // Dividends are not tracked as unspent outputs
        if let SourceIdV10::Utxo(utxo_id) = input.id {
            match origin(&self.txs, &utxo_id) {
                Ok((utxo_script, written_time)) => {
                    remove_utxo_v10(self, &utxo_id, &utxo_script, written_time);
                },
                Err(e) => {
                    return Err(e);
                },
            }
        } else {
            proof {
                Self::lemma_utxos_same(&*self);
            }
        }
        Ok(())
    }

    /// Stages the writing again of the output that `input` had spent.
    fn restore_input(&mut self, input: &TransactionInputV10) -> (r: KvResult<()>)
        ensures
            final(self).base() == old(self).base(),
            final(self).reliable() == old(self).reliable(),
            match r {
                Err(KvError::BackendError(_)) => !old(self).reliable(),
                Ok(_) => {
                    let was = old(self).pending();
                    match input_restored(was.txs, was.utxos_by_script, input@) {
                        Ok(utxos_by_script) => utxos_changed(
                            old(self),
                            final(self),
                            utxos_by_script,
                            input_restored_event(was.txs, input@),
                        ),
                        Err(_) => false,
                    }
                },
                Err(e) => {
                    let was = old(self).pending();
                    exists|fault: Fault| #[trigger]
                        reports(e, fault) && input_restored(was.txs, was.utxos_by_script, input@)
                            == Err::<RawMap, Fault>(fault)
                },
            },
    {
        // Dividends are not tracked as unspent outputs
        if let SourceIdV10::Utxo(utxo_id) = input.id {
            let (utxo_script, origin_time) = match origin(&self.txs, &utxo_id) {
                Ok(found) => found,
                Err(e) => {
                    return Err(e);
                },
            };
            write_utxo_v10(
                self,
                UtxoV10 {
                    id: utxo_id,
                    amount: input.amount,
                    script: utxo_script,
                    written_time: origin_time,
                },
            );
        } else {
            proof {
                Self::lemma_utxos_same(&*self);
            }
        }
        Ok(())
    }

    /// Stages the removal of the outputs that `inputs` spend.
    fn consume_inputs(&mut self, inputs: &Vec<TransactionInputV10>) -> (r: KvResult<()>)
        ensures
            final(self).base() == old(self).base(),
            final(self).reliable() == old(self).reliable(),
            match r {
                Err(KvError::BackendError(_)) => !old(self).reliable(),
                Ok(_) => {
                    let was = old(self).pending();
                    match inputs_consumed(was.txs, was.utxos_by_script, views(inputs@), 0) {
                        Ok(utxos_by_script) => utxos_changed(
                            old(self),
                            final(self),
                            utxos_by_script,
                            inputs_consumed_events(was.txs, views(inputs@), 0),
                        ),
                        Err(_) => false,
                    }
                },
                Err(e) => {
                    let was = old(self).pending();
                    exists|fault: Fault| #[trigger]
                        reports(e, fault) && inputs_consumed(
                            was.txs,
                            was.utxos_by_script,
                            views(inputs@),
                            0,
                        ) == Err::<RawMap, Fault>(fault)
                },
            },
    {
        let ghost was = self.pending();
        let ghost all = views(inputs@);
        let ghost mut done: UtxoEvents = Seq::empty();
        proof {
            Self::lemma_utxos_same(&*self);
            assert(done + inputs_consumed_events(was.txs, all, 0) =~= inputs_consumed_events(
                was.txs,
                all,
                0,
            ));
        }
        let mut i: usize = 0;
        while i < inputs.len()
            invariant
                i <= inputs@.len(),
                all == views(inputs@),
                was == old(self).pending(),
                self.base() == old(self).base(),
                self.reliable() == old(self).reliable(),
                utxos_changed(old(self), &*self, self.pending().utxos_by_script, done),
                inputs_consumed(was.txs, was.utxos_by_script, all, 0) == inputs_consumed(
                    was.txs,
                    self.pending().utxos_by_script,
                    all,
                    i as int,
                ),
                inputs_consumed_events(was.txs, all, 0) == done + inputs_consumed_events(
                    was.txs,
                    all,
                    i as int,
                ),
            decreases inputs.len() - i,
        {
            assert(all[i as int] == inputs@[i as int]@);
            let ghost between = *self;
            match self.consume_input(&inputs[i]) {
                Ok(_) => {},
                Err(e) => {
                    return Err(e);
                },
            }
            proof {
                let one = input_consumed_event(was.txs, all[i as int]);
                Self::lemma_utxos_twice(
                    old(self),
                    &between,
                    &*self,
                    between.pending().utxos_by_script,
                    done,
                    self.pending().utxos_by_script,
                    one,
                );
                let rest = inputs_consumed_events(was.txs, all, i as int + 1);
                assert(done + (one + rest) =~= (done + one) + rest);
                done = done + one;
            }
            i = i + 1;
        }
        proof {
            assert(done + Seq::<EventView<UtxoKeyView, SourceAmount>>::empty() =~= done);
        }
        Ok(())
    }

    /// Stages the writing of the outputs of the transaction `tx_hash`.
    fn create_outputs(
        &mut self,
        outputs: &Vec<TransactionOutputV10>,
        tx_hash: &tx_db::Hash,
        current_time: i64,
    )
        ensures
            final(self).base() == old(self).base(),
            final(self).reliable() == old(self).reliable(),
            utxos_changed(
                old(self),
                final(self),
                outputs_created(
                    old(self).pending().utxos_by_script,
                    views(outputs@),
                    tx_hash@,
                    current_time,
                    0,
                ),
                outputs_created_events(views(outputs@), tx_hash@, current_time, 0),
            ),
    {
        let ghost was = self.pending();
        let ghost all = views(outputs@);
        let ghost mut done: UtxoEvents = Seq::empty();
        proof {
            Self::lemma_utxos_same(&*self);
            assert(done + outputs_created_events(all, tx_hash@, current_time, 0)
                =~= outputs_created_events(all, tx_hash@, current_time, 0));
        }
        let mut output_index: usize = 0;
        while output_index < outputs.len()
            invariant
                output_index <= outputs@.len(),
                all == views(outputs@),
                was == old(self).pending(),
                self.base() == old(self).base(),
                self.reliable() == old(self).reliable(),
                utxos_changed(old(self), &*self, self.pending().utxos_by_script, done),
                outputs_created(was.utxos_by_script, all, tx_hash@, current_time, 0)
                    == outputs_created(
                    self.pending().utxos_by_script,
                    all,
                    tx_hash@,
                    current_time,
                    output_index as int,
                ),
                outputs_created_events(all, tx_hash@, current_time, 0) == done
                    + outputs_created_events(all, tx_hash@, current_time, output_index as int),
            decreases outputs.len() - output_index,
        {
            assert(all[output_index as int] == outputs@[output_index as int]@);
            let output = outputs[output_index];
            let ghost between = *self;
            write_utxo_v10(
                self,
                UtxoV10 {
                    id: UtxoIdV10 { tx_hash: *tx_hash, output_index },
                    amount: output.amount,
                    script: output.script,
                    written_time: current_time,
                },
            );
            proof {
                let one = seq![
                    EventView::Upsert {
                        key: output_key(all, tx_hash@, current_time, output_index as int),
                        value: all[output_index as int].amount,
                    },
                ];
                Self::lemma_utxos_twice(
                    old(self),
                    &between,
                    &*self,
                    between.pending().utxos_by_script,
                    done,
                    self.pending().utxos_by_script,
                    one,
                );
                let rest = outputs_created_events(all, tx_hash@, current_time, output_index as int + 1);
                assert(done + (one + rest) =~= (done + one) + rest);
                done = done + one;
            }
            output_index = output_index + 1;
        }
        proof {
            assert(done + Seq::<EventView<UtxoKeyView, SourceAmount>>::empty() =~= done);
        }
    }

    /// Stages the removal of the outputs of the transaction `tx_hash`, which
    /// were written at `written_time`.
    fn remove_outputs(
        &mut self,
        outputs: &Vec<TransactionOutputV10>,
        tx_hash: &tx_db::Hash,
        written_time: i64,
    )
        ensures
            final(self).base() == old(self).base(),
            final(self).reliable() == old(self).reliable(),
            utxos_changed(
                old(self),
                final(self),
                outputs_removed(
                    old(self).pending().utxos_by_script,
                    views(outputs@),
                    tx_hash@,
                    written_time,
                    0,
                ),
                outputs_removed_events(views(outputs@), tx_hash@, written_time, 0),
            ),
    {
        let ghost was = self.pending();
        let ghost all = views(outputs@);
        let ghost mut done: UtxoEvents = Seq::empty();
        proof {
            Self::lemma_utxos_same(&*self);
            assert(done + outputs_removed_events(all, tx_hash@, written_time, 0)
                =~= outputs_removed_events(all, tx_hash@, written_time, 0));
        }
        let mut j: usize = 0;
        while j < outputs.len()
            invariant
                j <= outputs@.len(),
                all == views(outputs@),
                was == old(self).pending(),
                self.base() == old(self).base(),
                self.reliable() == old(self).reliable(),
                utxos_changed(old(self), &*self, self.pending().utxos_by_script, done),
                outputs_removed(was.utxos_by_script, all, tx_hash@, written_time, 0)
                    == outputs_removed(
                    self.pending().utxos_by_script,
                    all,
                    tx_hash@,
                    written_time,
                    j as int,
                ),
                outputs_removed_events(all, tx_hash@, written_time, 0) == done
                    + outputs_removed_events(all, tx_hash@, written_time, j as int),
            decreases outputs.len() - j,
        {
            assert(all[j as int] == outputs@[j as int]@);
            let script = outputs[j].script;
            let ghost between = *self;
            remove_utxo_v10(self, &UtxoIdV10 { tx_hash: *tx_hash, output_index: j }, &script, written_time);
            proof {
                let one = seq![
                    EventView::<UtxoKeyView, SourceAmount>::Remove {
                        key: output_key(all, tx_hash@, written_time, j as int),
                    },
                ];
                Self::lemma_utxos_twice(
                    old(self),
                    &between,
                    &*self,
                    between.pending().utxos_by_script,
                    done,
                    self.pending().utxos_by_script,
                    one,
                );
                let rest = outputs_removed_events(all, tx_hash@, written_time, j as int + 1);
                assert(done + (one + rest) =~= (done + one) + rest);
                done = done + one;
            }
            j = j + 1;
        }
        proof {
            assert(done + Seq::<EventView<UtxoKeyView, SourceAmount>>::empty() =~= done);
        }
    }

    /// Stages the writing again of the outputs that `inputs` had spent.
    fn restore_inputs(&mut self, inputs: &Vec<TransactionInputV10>) -> (r: KvResult<()>)
        ensures
            final(self).base() == old(self).base(),
            final(self).reliable() == old(self).reliable(),
            match r {
                Err(KvError::BackendError(_)) => !old(self).reliable(),
                Ok(_) => {
                    let was = old(self).pending();
                    match inputs_restored(was.txs, was.utxos_by_script, views(inputs@), 0) {
                        Ok(utxos_by_script) => utxos_changed(
                            old(self),
                            final(self),
                            utxos_by_script,
                            inputs_restored_events(was.txs, views(inputs@), 0),
                        ),
                        Err(_) => false,
                    }
                },
                Err(e) => {
                    let was = old(self).pending();
                    exists|fault: Fault| #[trigger]
                        reports(e, fault) && inputs_restored(
                            was.txs,
                            was.utxos_by_script,
                            views(inputs@),
                            0,
                        ) == Err::<RawMap, Fault>(fault)
                },
            },
    {
        let ghost was = self.pending();
        let ghost all = views(inputs@);
        let ghost mut done: UtxoEvents = Seq::empty();
        proof {
            Self::lemma_utxos_same(&*self);
            assert(done + inputs_restored_events(was.txs, all, 0) =~= inputs_restored_events(
                was.txs,
                all,
                0,
            ));
        }
        let mut i: usize = 0;
        while i < inputs.len()
            invariant
                i <= inputs@.len(),
                all == views(inputs@),
                was == old(self).pending(),
                self.base() == old(self).base(),
                self.reliable() == old(self).reliable(),
                utxos_changed(old(self), &*self, self.pending().utxos_by_script, done),
                inputs_restored(was.txs, was.utxos_by_script, all, 0) == inputs_restored(
                    was.txs,
                    self.pending().utxos_by_script,
                    all,
                    i as int,
                ),
                inputs_restored_events(was.txs, all, 0) == done + inputs_restored_events(
                    was.txs,
                    all,
                    i as int,
                ),
            decreases inputs.len() - i,
        {
            assert(all[i as int] == inputs@[i as int]@);
            let ghost between = *self;
            match self.restore_input(&inputs[i]) {
                Ok(_) => {},
                Err(e) => {
                    return Err(e);
                },
            }
            proof {
                let one = input_restored_event(was.txs, all[i as int]);
                Self::lemma_utxos_twice(
                    old(self),
                    &between,
                    &*self,
                    between.pending().utxos_by_script,
                    done,
                    self.pending().utxos_by_script,
                    one,
                );
                let rest = inputs_restored_events(was.txs, all, i as int + 1);
                assert(done + (one + rest) =~= (done + one) + rest);
                done = done + one;
            }
            i = i + 1;
        }
        proof {
            assert(done + Seq::<EventView<UtxoKeyView, SourceAmount>>::empty() =~= done);
        }
        Ok(())
    }

    /// Stages the taking out of the written transaction `tx_db` with the
    /// digest `tx_hash`.
    pub fn remove_tx(&mut self, tx_hash: &tx_db::Hash, tx_db: &TxDbV2) -> (r: KvResult<()>)
        ensures
            final(self).base() == old(self).base(),
            final(self).reliable() == old(self).reliable(),
            match r {
                Err(KvError::BackendError(_)) => !old(self).reliable(),
                Ok(_) => {
                    &&& tx_removed(old(self).pending(), tx_hash@, tx_db@.tx) == Ok::<
                        GvaState,
                        Fault,
                    >(final(self).pending())
                    &&& final(self).staged_views() == old(self).staged_views().followed_by(
                        tx_removed_events(old(self).pending(), tx_hash@, tx_db@.tx),
                    )
                },
                Err(e) => e is DeserError && tx_removed(old(self).pending(), tx_hash@, tx_db@.tx)
                    == Err::<GvaState, Fault>(Fault::Damaged),
            },
    {
        // Remove tx hash in col `txs_by_issuer`
        match stage_index_put_all(&mut self.txs_by_issuer, &tx_db.tx.issuers, tx_hash, false) {
            Ok(_) => {},
            Err(e) => {
                return Err(e);
            },
        }
        // Remove tx hash in col `txs_by_recipient`
        match stage_index_put_all(&mut self.txs_by_recipient, &tx_db.tx.recipients, tx_hash, false) {
            Ok(_) => {},
            Err(e) => {
                return Err(e);
            },
        }
        // Remove tx itself
        self.txs.remove(*tx_hash);
        proof {
            lemma_followed(
                old(self).staged_views(),
                tx_removed_events(old(self).pending(), tx_hash@, tx_db@.tx),
                self.staged_views(),
            );
        }
        Ok(())
    }

    /// Stages the writing of the transaction `tx` with the digest
    /// `tx_hash`, in block `current_blockstamp` at `current_time`.
    pub fn write_tx(
        &mut self,
        current_blockstamp: Blockstamp,
        current_time: i64,
        tx_hash: tx_db::Hash,
        tx: TransactionDocumentV10,
    ) -> (r: KvResult<()>)
        ensures
            final(self).base() == old(self).base(),
            final(self).reliable() == old(self).reliable(),
            match r {
                Err(KvError::BackendError(_)) => !old(self).reliable(),
                Ok(_) => {
                    &&& tx_written(
                        old(self).pending(),
                        current_blockstamp@,
                        current_time,
                        tx_hash@,
                        tx@,
                    ) == Ok::<GvaState, Fault>(final(self).pending())
                    &&& final(self).staged_views() == old(self).staged_views().followed_by(
                        tx_written_events(
                            old(self).pending(),
                            current_blockstamp@,
                            current_time,
                            tx_hash@,
                            tx@,
                        ),
                    )
                },
                Err(e) => exists|fault: Fault| #[trigger]
                    reports(e, fault) && tx_written(
                        old(self).pending(),
                        current_blockstamp@,
                        current_time,
                        tx_hash@,
                        tx@,
                    ) == Err::<GvaState, Fault>(fault),
            },
    {
        // Insert on col `txs_by_issuer`
        match stage_index_put_all(&mut self.txs_by_issuer, &tx.issuers, &tx_hash, true) {
            Ok(_) => {},
            Err(e) => {
                assert(e is DeserError ==> reports(e, Fault::Damaged));
                return Err(e);
            },
        }
        // Insert on col `txs_by_recipient`
        match stage_index_put_all(&mut self.txs_by_recipient, &tx.recipients, &tx_hash, true) {
            Ok(_) => {},
            Err(e) => {
                assert(e is DeserError ==> reports(e, Fault::Damaged));
                return Err(e);
            },
        }
        // Remove consumed UTXOs
        match self.consume_inputs(&tx.inputs) {
            Ok(_) => {},
            Err(e) => {
                return Err(e);
            },
        }
        // Insert created UTXOs
        self.create_outputs(&tx.outputs, &tx_hash, current_time);
        // Insert tx itself
        let ghost doc = tx@;
        self.txs.upsert(
            tx_hash,
            TxDbV2 { tx, written_block: current_blockstamp, written_time: current_time },
        );
        proof {
            lemma_followed(
                old(self).staged_views(),
                tx_written_events(
                    old(self).pending(),
                    current_blockstamp@,
                    current_time,
                    tx_hash@,
                    doc,
                ),
                self.staged_views(),
            );
        }
        Ok(())
    }

    /// Stages the undoing of the writing of the transaction with the
    /// digest `tx_hash`, and gives its document; stages nothing and gives
    /// `None` where no such transaction is stored.
    #[verifier::rlimit(40)]
    pub fn revert_tx(&mut self, tx_hash: &tx_db::Hash) -> (r: KvResult<Option<TransactionDocumentV10>>)
        ensures
            final(self).base() == old(self).base(),
            final(self).reliable() == old(self).reliable(),
            match r {
                Err(KvError::BackendError(_)) => !old(self).reliable(),
                Ok(found) => {
                    &&& tx_reverted(old(self).pending(), tx_hash@) == Ok::<
                        (GvaState, Option<TxDocView>),
                        Fault,
                    >(
                        (
                            final(self).pending(),
                            match found {
                                Some(doc) => Some(doc@),
                                None => None,
                            },
                        ),
                    )
                    &&& final(self).staged_views() == old(self).staged_views().followed_by(
                        tx_reverted_events(old(self).pending(), tx_hash@),
                    )
                },
                Err(e) => exists|fault: Fault| #[trigger]
                    reports(e, fault) && tx_reverted(old(self).pending(), tx_hash@) == Err::<
                        (GvaState, Option<TxDocView>),
                        Fault,
                    >(fault),
            },
    {
        let tx_db = match self.txs.get(tx_hash) {
            Ok(Some(tx_db)) => tx_db,
            Ok(None) => {
                proof {
                    lemma_followed(old(self).staged_views(), GvaEvents::none(), self.staged_views());
                }
                return Ok(None);
            },
            Err(e) => {
                assert(e is DeserError ==> reports(e, Fault::Damaged));
                return Err(e);
            },
        };
        // Remove UTXOs created by this tx
        self.remove_outputs(&tx_db.tx.outputs, tx_hash, tx_db.written_time);
        // Recreate UTXOs consumed by this tx
        match self.restore_inputs(&tx_db.tx.inputs) {
            Ok(_) => {},
            Err(e) => {
                return Err(e);
            },
        }
        // Remove tx
        let ghost between = self.staged_views();
        let ghost state = self.pending();
        match self.remove_tx(tx_hash, &tx_db) {
            Ok(_) => {},
            Err(e) => {
                assert(e is DeserError ==> reports(e, Fault::Damaged));
                return Err(e);
            },
        }
        proof {
            let was = old(self).pending();
            assert(tx_removed_events(state, tx_hash@, tx_db@.tx) == tx_removed_events(
                was,
                tx_hash@,
                tx_db@.tx,
            ));
            lemma_followed(
                old(self).staged_views(),
                tx_reverted_events(was, tx_hash@),
                self.staged_views(),
            );
        }
        Ok(Some(tx_db.tx))
    }
}

/// What a change to the ledger may leave behind when it is given up
/// because an engine failed: the transactions as they were, and each
/// other collection as it was or, where the failure came while the change
/// was written, as the change `goal` has it.
pub open spec fn given_up(was: GvaState, now: GvaState, goal: Option<GvaState>) -> bool {
    &&& now.txs == was.txs
    &&& now.txs_by_issuer == was.txs_by_issuer || (goal matches Some(g) && now.txs_by_issuer
        == g.txs_by_issuer)
    &&& now.txs_by_recipient == was.txs_by_recipient || (goal matches Some(g)
        && now.txs_by_recipient == g.txs_by_recipient)
    &&& now.utxos_by_script == was.utxos_by_script || (goal matches Some(g) && now.utxos_by_script
        == g.utxos_by_script)
}

/// The subscribers of the four collections were sent, each in one
/// delivery, events with the views `events`, and nothing else.
pub open spec fn told<B: Backend>(was: &GvaV1Db<B>, now: &GvaV1Db<B>, events: GvaEvents) -> bool {
    exists|staged: GvaV1DbBatch| staged.views() == events && #[trigger] now.told_of(was, staged)
}

/// Writes the transaction `tx` with the digest `tx_hash` into the ledger,
/// in block `current_blockstamp` at `current_time`: all of `tx_written`,
/// or nothing where that reports a fault. The subscribers are told of
/// exactly the changes of `tx_written_events`.
pub fn write_tx<B: Backend>(
    current_blockstamp: Blockstamp,
    current_time: i64,
    gva_db: &mut GvaV1Db<B>,
    tx_hash: tx_db::Hash,
    tx: TransactionDocumentV10,
) -> (r: KvResult<()>)
    ensures
        final(gva_db).reliable() == old(gva_db).reliable(),
        match r {
            Err(KvError::BackendError(_)) => {
                &&& !old(gva_db).reliable()
                &&& final(gva_db).told_nothing(old(gva_db))
                &&& given_up(
                    old(gva_db).state(),
                    final(gva_db).state(),
                    match tx_written(
                        old(gva_db).state(),
                        current_blockstamp@,
                        current_time,
                        tx_hash@,
                        tx@,
                    ) {
                        Ok(goal) => Some(goal),
                        Err(_) => None,
                    },
                )
            },
            Ok(_) => {
                &&& tx_written(
                    old(gva_db).state(),
                    current_blockstamp@,
                    current_time,
                    tx_hash@,
                    tx@,
                ) == Ok::<GvaState, Fault>(final(gva_db).state())
                &&& told(
                    old(gva_db),
                    final(gva_db),
                    tx_written_events(
                        old(gva_db).state(),
                        current_blockstamp@,
                        current_time,
                        tx_hash@,
                        tx@,
                    ),
                )
            },
            Err(e) => {
                &&& final(gva_db).state() == old(gva_db).state()
                &&& final(gva_db).told_nothing(old(gva_db))
                &&& exists|fault: Fault| #[trigger]
                    reports(e, fault) && tx_written(
                        old(gva_db).state(),
                        current_blockstamp@,
                        current_time,
                        tx_hash@,
                        tx@,
                    ) == Err::<GvaState, Fault>(fault)
            },
        },
{
    let mut staging = gva_db.begin();
    let ghost doc = tx@;
    match staging.write_tx(current_blockstamp, current_time, tx_hash, tx) {
        Ok(_) => {},
        Err(e) => {
            return Err(e);
        },
    }
    proof {
        let events = tx_written_events(
            gva_db.state(),
            current_blockstamp@,
            current_time,
            tx_hash@,
            doc,
        );
        lemma_followed(GvaEvents::none(), events, events);
    }
    let batches = staging.into_batches();
    gva_db.commit(batches)
}

/// Undoes the writing of the transaction with the digest `tx_hash` and
/// gives its document: all of `tx_reverted`, or nothing where that
/// reports a fault. Where no such transaction is stored nothing is
/// changed, nobody is told and `None` is given.
pub fn revert_tx<B: Backend>(gva_db: &mut GvaV1Db<B>, tx_hash: &tx_db::Hash) -> (r: KvResult<
    Option<TransactionDocumentV10>,
>)
    ensures
        final(gva_db).reliable() == old(gva_db).reliable(),
        match r {
            Err(KvError::BackendError(_)) => {
                &&& !old(gva_db).reliable()
                &&& final(gva_db).told_nothing(old(gva_db))
                &&& given_up(
                    old(gva_db).state(),
                    final(gva_db).state(),
                    match tx_reverted(old(gva_db).state(), tx_hash@) {
                        Ok((goal, _)) => Some(goal),
                        Err(_) => None,
                    },
                )
            },
            Ok(found) => {
                &&& tx_reverted(old(gva_db).state(), tx_hash@) == Ok::<
                    (GvaState, Option<TxDocView>),
                    Fault,
                >(
                    (
                        final(gva_db).state(),
                        match found {
                            Some(doc) => Some(doc@),
                            None => None,
                        },
                    ),
                )
                &&& told(
                    old(gva_db),
                    final(gva_db),
                    tx_reverted_events(old(gva_db).state(), tx_hash@),
                )
                &&& found is None ==> final(gva_db).told_nothing(old(gva_db))
            },
            Err(e) => {
                &&& final(gva_db).state() == old(gva_db).state()
                &&& final(gva_db).told_nothing(old(gva_db))
                &&& exists|fault: Fault| #[trigger]
                    reports(e, fault) && tx_reverted(old(gva_db).state(), tx_hash@) == Err::<
                        (GvaState, Option<TxDocView>),
                        Fault,
                    >(fault)
            },
        },
{
    let mut staging = gva_db.begin();
    let found = match staging.revert_tx(tx_hash) {
        Ok(found) => found,
        Err(e) => {
            return Err(e);
        },
    };
    proof {
        let events = tx_reverted_events(gva_db.state(), tx_hash@);
        lemma_followed(GvaEvents::none(), events, events);
    }
    let batches = staging.into_batches();
    match gva_db.commit(batches) {
        Ok(_) => {
            proof {
                if found is None {
                    assert(batches.txs@.len() == 0);
                    assert(batches.txs_by_issuer@.len() == 0);
                    assert(batches.txs_by_recipient@.len() == 0);
                    assert(batches.utxos_by_script@.len() == 0);
                }
            }
            Ok(found)
        },
        Err(e) => Err(e),
    }
}

/// Takes the written transaction `tx_db` with the digest `tx_hash` out of
/// the ledger: all of `tx_removed`, or nothing where that reports a
/// fault. The subscribers of the transactions are told of one `Remove`.
pub fn remove_tx<B: Backend>(gva_db: &mut GvaV1Db<B>, tx_hash: &tx_db::Hash, tx_db: &TxDbV2) -> (r:
    KvResult<()>)
    ensures
        final(gva_db).reliable() == old(gva_db).reliable(),
        match r {
            Err(KvError::BackendError(_)) => {
                &&& !old(gva_db).reliable()
                &&& final(gva_db).told_nothing(old(gva_db))
                &&& given_up(
                    old(gva_db).state(),
                    final(gva_db).state(),
                    match tx_removed(old(gva_db).state(), tx_hash@, tx_db@.tx) {
                        Ok(goal) => Some(goal),
                        Err(_) => None,
                    },
                )
            },
            Ok(_) => {
                &&& tx_removed(old(gva_db).state(), tx_hash@, tx_db@.tx) == Ok::<GvaState, Fault>(
                    final(gva_db).state(),
                )
                &&& told(
                    old(gva_db),
                    final(gva_db),
                    tx_removed_events(old(gva_db).state(), tx_hash@, tx_db@.tx),
                )
            },
            Err(e) => {
                &&& e is DeserError
                &&& final(gva_db).state() == old(gva_db).state()
                &&& final(gva_db).told_nothing(old(gva_db))
                &&& tx_removed(old(gva_db).state(), tx_hash@, tx_db@.tx) == Err::<GvaState, Fault>(
                    Fault::Damaged,
                )
            },
        },
{
    let mut staging = gva_db.begin();
    match staging.remove_tx(tx_hash, tx_db) {
        Ok(_) => {},
        Err(e) => {
            return Err(e);
        },
    }
    proof {
        let events = tx_removed_events(gva_db.state(), tx_hash@, tx_db@.tx);
        lemma_followed(GvaEvents::none(), events, events);
    }
    let batches = staging.into_batches();
    gva_db.commit(batches)
}

} // verus!
