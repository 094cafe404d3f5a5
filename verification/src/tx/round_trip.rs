//! Writing a transaction and undoing the writing leaves the ledger as it
//! was, and no index ever holds an empty set.

use crate::backend::RawMap;
use crate::codec::record::{fits, lemma_list_item_valid};
use crate::codec::Codec;
use crate::gva_v1::GvaState;
use crate::tx::{
    index_put, index_put_all, input_consumed, input_restored, inputs_consumed, inputs_restored,
    origin_of, output_id, outputs_created, outputs_removed, spent_key, stored_set, tx_removed,
    tx_reverted, tx_written,
};
use crate::utxos::{utxo_key, utxo_removed, utxo_written, Fault};
use crate::values::hash_set::{
    lemma_inserted, lemma_place, lemma_rank_is_place, lemma_removed, lemma_set_canonical,
    lemma_with_without, rank, set_with, set_without, HashBTSetV2,
};
use crate::values::tx_db;
use crate::values::tx_db::{
    BlockstampView, InputView, OutputView, SourceAmount, SourceIdView, TxDbV2, TxDbView, TxDocView,
};
use vstd::prelude::*;

verus! {

/// `k` is one of the first `upto` items of `keys`.
pub open spec fn among(keys: Seq<Seq<u8>>, upto: int, k: Seq<u8>) -> bool {
    exists|i: int| 0 <= i < upto && i < keys.len() && #[trigger] keys[i] == k
}

/// The stored bytes stand for a set of digests that is not empty.
pub open spec fn sound_set(bytes: Seq<u8>) -> bool {
    match HashBTSetV2::decoded(bytes) {
        Some(set) => set.len() > 0,
        None => false,
    }
}

/// Each key of the index has a set of digests that is not empty.
pub open spec fn index_sound(index: RawMap) -> bool {
    forall|k: Seq<u8>| #[trigger] index.contains_key(k) ==> sound_set(index[k])
}

/// Each of `whos` that has a set in the index has one that is not empty.
pub open spec fn sets_sound(index: RawMap, whos: Seq<Seq<u8>>) -> bool {
    forall|i: int|
        0 <= i < whos.len() && index.contains_key(#[trigger] whos[i]) ==> sound_set(
            index[whos[i]],
        )
}

/// The index has something that can be read for each of the first `upto`
/// of `whos`.
pub open spec fn readable(index: RawMap, whos: Seq<Seq<u8>>, upto: int) -> bool {
    forall|i: int| 0 <= i < upto && i < whos.len() ==> stored_set(index, #[trigger] whos[i]) is Some
}

/// `hash` is in the set of none of `whos`.
pub open spec fn unlisted(index: RawMap, whos: Seq<Seq<u8>>, hash: Seq<u8>) -> bool {
    forall|i: int|
        0 <= i < whos.len() ==> match stored_set(index, #[trigger] whos[i]) {
            Some(set) => !set.contains(hash),
            None => true,
        }
}

/// The encoding of the set of `who` with `hash` put into it.
pub open spec fn with_hash(index: RawMap, who: Seq<u8>, hash: Seq<u8>) -> Seq<u8> {
    HashBTSetV2::encoded(set_with(stored_set(index, who).unwrap(), hash))
}

/// The index in which `hash` was put into the sets of the first `upto` of
/// `whos`.
pub open spec fn partly_added(index: RawMap, whos: Seq<Seq<u8>>, hash: Seq<u8>, upto: int) -> RawMap {
    Map::new(
        |k: Seq<u8>| index.contains_key(k) || among(whos, upto, k),
        |k: Seq<u8>|
            if among(whos, upto, k) {
                with_hash(index, k, hash)
            } else {
                index[k]
            },
    )
}

/// The index in which `hash` was put into the sets of all of `whos` and
/// taken out again of those of the first `upto` of them.
pub open spec fn partly_taken(index: RawMap, whos: Seq<Seq<u8>>, hash: Seq<u8>, upto: int) -> RawMap {
    Map::new(
        |k: Seq<u8>|
            index.contains_key(k) || (among(whos, whos.len() as int, k) && !among(whos, upto, k)),
        |k: Seq<u8>|
            if among(whos, whos.len() as int, k) && !among(whos, upto, k) {
                with_hash(index, k, hash)
            } else {
                index[k]
            },
    )
}

/// A set with one more digest of 32 bytes is a set again, the digest is in
/// it, and putting the digest in once more changes nothing.
pub proof fn lemma_with_is_valid(set: Seq<Seq<u8>>, hash: Seq<u8>)
    requires
        HashBTSetV2::valid(set),
        hash.len() == 32,
    ensures
        HashBTSetV2::valid(set_with(set, hash)),
        set_with(set, hash).contains(hash),
        set_with(set, hash).len() > 0,
        set_with(set_with(set, hash), hash) == set_with(set, hash),
        HashBTSetV2::decoded(HashBTSetV2::encoded(set_with(set, hash))) == Some(
            set_with(set, hash),
        ),
{
    let t = set_with(set, hash);
    if !set.contains(hash) {
        lemma_rank_is_place(set, hash);
        let at = rank(set, hash);
        lemma_place(set, hash, at);
        lemma_inserted(set, hash, at);
        assert(t[at] == hash);
        assert forall|i: int| 0 <= i < t.len() implies <tx_db::Hash as Codec>::valid(
            #[trigger] t[i],
        ) && fits(<tx_db::Hash as Codec>::encoded(t[i])) by {
            if i < at {
                assert(t[i] == set[i]);
                lemma_list_item_valid::<tx_db::Hash>(set, i);
            } else if i > at {
                assert(t[i] == set[i - 1]);
                lemma_list_item_valid::<tx_db::Hash>(set, i - 1);
            } else {
                assert(t[i] == hash);
            }
        }
    }
    HashBTSetV2::lemma_round_trip(t);
}

/// A set with one digest less is a set again.
pub proof fn lemma_without_is_valid(set: Seq<Seq<u8>>, hash: Seq<u8>)
    requires
        HashBTSetV2::valid(set),
    ensures
        HashBTSetV2::valid(set_without(set, hash)),
        HashBTSetV2::decoded(HashBTSetV2::encoded(set_without(set, hash))) == Some(
            set_without(set, hash),
        ),
{
    let t = set_without(set, hash);
    if set.contains(hash) {
        let at = set.index_of(hash);
        lemma_removed(set, at);
        assert forall|i: int| 0 <= i < t.len() implies <tx_db::Hash as Codec>::valid(
            #[trigger] t[i],
        ) && fits(<tx_db::Hash as Codec>::encoded(t[i])) by {
            if i < at {
                assert(t[i] == set[i]);
                lemma_list_item_valid::<tx_db::Hash>(set, i);
            } else {
                assert(t[i] == set[i + 1]);
                lemma_list_item_valid::<tx_db::Hash>(set, i + 1);
            }
        }
    }
    HashBTSetV2::lemma_round_trip(t);
}

/// What an index has for a key whose set can be read: a set, stored in
/// the one way in which it can be stored.
pub proof fn lemma_read_set(index: RawMap, who: Seq<u8>)
    requires
        stored_set(index, who) is Some,
    ensures
        HashBTSetV2::valid(stored_set(index, who).unwrap()),
        index.contains_key(who) ==> HashBTSetV2::encoded(stored_set(index, who).unwrap())
            == index[who],
{
    if index.contains_key(who) {
        lemma_set_canonical(index[who]);
    }
}

/// What an index has for a key whose set is not empty if it is there: a
/// set, empty only where the key is not there.
pub proof fn lemma_stored_set(index: RawMap, who: Seq<u8>)
    requires
        index.contains_key(who) ==> sound_set(index[who]),
    ensures
        stored_set(index, who) is Some,
        HashBTSetV2::valid(stored_set(index, who).unwrap()),
        index.contains_key(who) ==> stored_set(index, who).unwrap().len() > 0
            && HashBTSetV2::encoded(stored_set(index, who).unwrap()) == index[who],
{
    lemma_read_set(index, who);
}

/// Putting a digest into a set of an index that holds no empty set, or
/// taking one out, succeeds and leaves no empty set.
pub proof fn lemma_put_stays_sound(index: RawMap, who: Seq<u8>, hash: Seq<u8>, add: bool)
    requires
        index_sound(index),
        hash.len() == 32,
    ensures
        index_put(index, who, hash, add) is Ok,
        index_sound(index_put(index, who, hash, add)->Ok_0),
{
    assert(index.contains_key(who) ==> sound_set(index[who]));
    lemma_stored_set(index, who);
    let set = stored_set(index, who).unwrap();
    lemma_with_is_valid(set, hash);
    lemma_without_is_valid(set, hash);
    let next = index_put(index, who, hash, add)->Ok_0;
    assert forall|k: Seq<u8>| #[trigger] next.contains_key(k) implies sound_set(next[k]) by {
        if k != who {
            assert(index.contains_key(k));
        }
    }
}

/// Putting a digest into the sets of some keys of an index that holds no
/// empty set, or taking it out of them, succeeds and leaves no empty set.
pub proof fn lemma_put_all_stays_sound(
    index: RawMap,
    whos: Seq<Seq<u8>>,
    hash: Seq<u8>,
    add: bool,
    from: int,
)
    requires
        index_sound(index),
        hash.len() == 32,
    ensures
        index_put_all(index, whos, hash, add, from) is Ok,
        index_sound(index_put_all(index, whos, hash, add, from)->Ok_0),
    decreases whos.len() - from,
{
    if 0 <= from < whos.len() {
        lemma_put_stays_sound(index, whos[from], hash, add);
        lemma_put_all_stays_sound(
            index_put(index, whos[from], hash, add)->Ok_0,
            whos,
            hash,
            add,
            from + 1,
        );
    }
}

/// Both indexes of the ledger hold no empty set.
pub open spec fn indexes_sound(s: GvaState) -> bool {
    index_sound(s.txs_by_issuer) && index_sound(s.txs_by_recipient)
}

/// No empty set is ever stored: where the indexes hold none, they hold
/// none after a transaction was written, taken out, or its writing undone.
pub proof fn lemma_no_empty_set(
    s: GvaState,
    block: BlockstampView,
    time: i64,
    hash: Seq<u8>,
    tx: TxDocView,
)
    requires
        indexes_sound(s),
        hash.len() == 32,
    ensures
        tx_written(s, block, time, hash, tx) matches Ok(after) ==> indexes_sound(after),
        tx_removed(s, hash, tx) matches Ok(after) ==> indexes_sound(after),
        tx_reverted(s, hash) matches Ok((after, _)) ==> indexes_sound(after),
{
    lemma_put_all_stays_sound(s.txs_by_issuer, tx.issuers, hash, true, 0);
    lemma_put_all_stays_sound(s.txs_by_recipient, tx.recipients, hash, true, 0);
    lemma_put_all_stays_sound(s.txs_by_issuer, tx.issuers, hash, false, 0);
    lemma_put_all_stays_sound(s.txs_by_recipient, tx.recipients, hash, false, 0);
    if s.txs.contains_key(hash) {
        if let Some(stored) = TxDbV2::decoded(s.txs[hash]) {
            lemma_put_all_stays_sound(s.txs_by_issuer, stored.tx.issuers, hash, false, 0);
            lemma_put_all_stays_sound(s.txs_by_recipient, stored.tx.recipients, hash, false, 0);
        }
    }
}

proof fn lemma_among_step(keys: Seq<Seq<u8>>, from: int, k: Seq<u8>)
    requires
        0 <= from < keys.len(),
    ensures
        among(keys, from + 1, k) <==> (among(keys, from, k) || k == keys[from]),
{
    if among(keys, from + 1, k) {
        let i = choose|i: int| 0 <= i < from + 1 && i < keys.len() && #[trigger] keys[i] == k;
        if i < from {
            assert(among(keys, from, k));
        }
    }
    if among(keys, from, k) {
        let i = choose|i: int| 0 <= i < from && i < keys.len() && #[trigger] keys[i] == k;
        assert(0 <= i < from + 1 && keys[i] == k);
    }
    if k == keys[from] {
        assert(0 <= from < from + 1 && keys[from] == k);
    }
}

proof fn lemma_add_fold(index: RawMap, whos: Seq<Seq<u8>>, hash: Seq<u8>, from: int)
    requires
        sets_sound(index, whos),
        hash.len() == 32,
        0 <= from <= whos.len(),
    ensures
        index_put_all(partly_added(index, whos, hash, from), whos, hash, true, from) == Ok::<
            RawMap,
            Fault,
        >(partly_added(index, whos, hash, whos.len() as int)),
    decreases whos.len() - from,
{
    let cur = partly_added(index, whos, hash, from);
    if from < whos.len() {
        let who = whos[from];
        lemma_stored_set(index, who);
        let set = stored_set(index, who).unwrap();
        lemma_with_is_valid(set, hash);
        assert(stored_set(cur, who) == Some(
            if among(whos, from, who) {
                set_with(set, hash)
            } else {
                set
            },
        ));
        let next = cur.insert(who, with_hash(index, who, hash));
        assert(index_put(cur, who, hash, true) == Ok::<RawMap, Fault>(next));
        assert(next =~= partly_added(index, whos, hash, from + 1)) by {
            assert forall|k: Seq<u8>| among(whos, from + 1, k) <==> (among(whos, from, k) || k
                == who) by {
                lemma_among_step(whos, from, k);
            }
        }
        lemma_add_fold(index, whos, hash, from + 1);
    }
}

proof fn lemma_take_fold(index: RawMap, whos: Seq<Seq<u8>>, hash: Seq<u8>, from: int)
    requires
        sets_sound(index, whos),
        unlisted(index, whos, hash),
        hash.len() == 32,
        0 <= from <= whos.len(),
    ensures
        index_put_all(partly_taken(index, whos, hash, from), whos, hash, false, from) == Ok::<
            RawMap,
            Fault,
        >(index),
    decreases whos.len() - from,
{
    let cur = partly_taken(index, whos, hash, from);
    if from < whos.len() {
        let who = whos[from];
        assert(among(whos, whos.len() as int, who));
        lemma_stored_set(index, who);
        let set = stored_set(index, who).unwrap();
        assert(!set.contains(hash));
        lemma_with_is_valid(set, hash);
        lemma_with_without(set, hash);
        let next = partly_taken(index, whos, hash, from + 1);
        assert forall|k: Seq<u8>| among(whos, from + 1, k) <==> (among(whos, from, k) || k
            == who) by {
            lemma_among_step(whos, from, k);
        }
        if among(whos, from, who) {
            assert(cur =~= next);
            if cur.contains_key(who) {
                assert(cur[who] == index[who]);
                assert(set_without(set, hash) == set);
                assert(cur.insert(who, index[who]) =~= cur);
            }
        } else {
            assert(cur.contains_key(who));
            assert(cur[who] == with_hash(index, who, hash));
            if index.contains_key(who) {
                assert(cur.insert(who, index[who]) =~= next);
            } else {
                assert(set.len() == 0);
                assert(cur.remove(who) =~= next);
            }
        }
        assert(index_put(cur, who, hash, false) == Ok::<RawMap, Fault>(next));
        lemma_take_fold(index, whos, hash, from + 1);
    } else {
        assert(cur =~= index);
    }
}

/// Putting a digest into the sets of some keys and taking it out of them
/// again leaves the index as it was, if none of these sets was empty and
/// the digest was in none of them. A key that had no set has none
/// afterwards.
pub proof fn lemma_index_round_trip(index: RawMap, whos: Seq<Seq<u8>>, hash: Seq<u8>)
    requires
        sets_sound(index, whos),
        unlisted(index, whos, hash),
        hash.len() == 32,
    ensures
        index_put_all(index, whos, hash, true, 0) is Ok,
        index_put_all(index_put_all(index, whos, hash, true, 0)->Ok_0, whos, hash, false, 0)
            == Ok::<RawMap, Fault>(index),
{
    lemma_add_fold(index, whos, hash, 0);
    assert(partly_added(index, whos, hash, 0) =~= index);
    lemma_take_fold(index, whos, hash, 0);
    assert(partly_taken(index, whos, hash, 0) =~= partly_added(
        index,
        whos,
        hash,
        whos.len() as int,
    ));
}

/// The stored key of the output that `input` spends, if it spends one
/// that is found.
pub open spec fn spent_bytes(txs: RawMap, input: InputView) -> Option<Seq<u8>> {
    match spent_key(txs, input) {
        Ok(Some(key)) => Some(utxo_key(key.script, key.written_time, key.id)),
        _ => None,
    }
}

/// One of the first `upto` inputs spends the output stored under `k`.
pub open spec fn spent_among(txs: RawMap, inputs: Seq<InputView>, upto: int, k: Seq<u8>) -> bool {
    exists|i: int|
        0 <= i < upto && i < inputs.len() && spent_bytes(txs, #[trigger] inputs[i]) == Some(k)
}

/// Each input that spends an output finds the transaction that made it,
/// and the output is stored as unspent with the amount of the input.
pub open spec fn inputs_unspent(txs: RawMap, utxos: RawMap, inputs: Seq<InputView>) -> bool {
    forall|i: int|
        0 <= i < inputs.len() ==> match (#[trigger] inputs[i]).id {
            SourceIdView::Ud { .. } => true,
            SourceIdView::Utxo(id) => {
                &&& origin_of(txs, id) is Ok
                &&& utxos.contains_key(spent_bytes(txs, inputs[i]).unwrap())
                &&& utxos[spent_bytes(txs, inputs[i]).unwrap()] == SourceAmount::encoded(
                    inputs[i].amount,
                )
            },
        }
}

/// The unspent outputs without those that the first `upto` inputs spend.
pub open spec fn without_spent(
    utxos: RawMap,
    txs: RawMap,
    inputs: Seq<InputView>,
    upto: int,
) -> RawMap {
    Map::new(
        |k: Seq<u8>| utxos.contains_key(k) && !spent_among(txs, inputs, upto, k),
        |k: Seq<u8>| utxos[k],
    )
}

/// The unspent outputs without those that the inputs spend, but for
/// those of the first `upto` inputs.
pub open spec fn partly_restored(
    utxos: RawMap,
    txs: RawMap,
    inputs: Seq<InputView>,
    upto: int,
) -> RawMap {
    Map::new(
        |k: Seq<u8>|
            utxos.contains_key(k) && (!spent_among(txs, inputs, inputs.len() as int, k)
                || spent_among(txs, inputs, upto, k)),
        |k: Seq<u8>| utxos[k],
    )
}

proof fn lemma_spent_step(txs: RawMap, inputs: Seq<InputView>, from: int, k: Seq<u8>)
    requires
        0 <= from < inputs.len(),
    ensures
        spent_among(txs, inputs, from + 1, k) <==> (spent_among(txs, inputs, from, k)
            || spent_bytes(txs, inputs[from]) == Some(k)),
{
    if spent_among(txs, inputs, from + 1, k) {
        let i = choose|i: int|
            0 <= i < from + 1 && i < inputs.len() && spent_bytes(txs, #[trigger] inputs[i]) == Some(
                k,
            );
        if i < from {
            assert(spent_among(txs, inputs, from, k));
        }
    }
    if spent_among(txs, inputs, from, k) {
        let i = choose|i: int|
            0 <= i < from && i < inputs.len() && spent_bytes(txs, #[trigger] inputs[i]) == Some(k);
        assert(0 <= i < from + 1 && spent_bytes(txs, inputs[i]) == Some(k));
    }
    if spent_bytes(txs, inputs[from]) == Some(k) {
        assert(0 <= from < from + 1 && spent_bytes(txs, inputs[from]) == Some(k));
    }
}

proof fn lemma_consume_fold(utxos: RawMap, txs: RawMap, inputs: Seq<InputView>, from: int)
    requires
        inputs_unspent(txs, utxos, inputs),
        0 <= from <= inputs.len(),
    ensures
        inputs_consumed(txs, without_spent(utxos, txs, inputs, from), inputs, from) == Ok::<
            RawMap,
            Fault,
        >(without_spent(utxos, txs, inputs, inputs.len() as int)),
    decreases inputs.len() - from,
{
    let cur = without_spent(utxos, txs, inputs, from);
    if from < inputs.len() {
        let input = inputs[from];
        let next = without_spent(utxos, txs, inputs, from + 1);
        assert forall|k: Seq<u8>|
            spent_among(txs, inputs, from + 1, k) <==> (spent_among(txs, inputs, from, k)
                || spent_bytes(txs, inputs[from]) == Some(k)) by {
            lemma_spent_step(txs, inputs, from, k);
        }
        match input.id {
            SourceIdView::Ud { .. } => {
                assert(cur =~= next);
            },
            SourceIdView::Utxo(id) => {
                let key = spent_bytes(txs, input).unwrap();
                assert(cur.remove(key) =~= next);
            },
        }
        assert(input_consumed(txs, cur, input) == Ok::<RawMap, Fault>(next));
        lemma_consume_fold(utxos, txs, inputs, from + 1);
    }
}

proof fn lemma_restore_fold(
    later: RawMap,
    utxos: RawMap,
    txs: RawMap,
    inputs: Seq<InputView>,
    from: int,
)
    requires
        inputs_unspent(txs, utxos, inputs),
        forall|i: int|
            0 <= i < inputs.len() ==> spent_key(later, #[trigger] inputs[i]) == spent_key(
                txs,
                inputs[i],
            ),
        0 <= from <= inputs.len(),
    ensures
        inputs_restored(later, partly_restored(utxos, txs, inputs, from), inputs, from) == Ok::<
            RawMap,
            Fault,
        >(utxos),
    decreases inputs.len() - from,
{
    let cur = partly_restored(utxos, txs, inputs, from);
    if from < inputs.len() {
        let input = inputs[from];
        let next = partly_restored(utxos, txs, inputs, from + 1);
        assert forall|k: Seq<u8>|
            spent_among(txs, inputs, from + 1, k) <==> (spent_among(txs, inputs, from, k)
                || spent_bytes(txs, inputs[from]) == Some(k)) by {
            lemma_spent_step(txs, inputs, from, k);
        }
        assert(spent_key(later, inputs[from]) == spent_key(txs, inputs[from]));
        match input.id {
            SourceIdView::Ud { .. } => {
                assert(cur =~= next);
            },
            SourceIdView::Utxo(id) => {
                let key = spent_bytes(txs, input).unwrap();
                assert(spent_among(txs, inputs, inputs.len() as int, key)) by {
                    assert(spent_bytes(txs, inputs[from]) == Some(key));
                }
                assert(cur.insert(key, utxos[key]) =~= next);
            },
        }
        assert(input_restored(later, cur, input) == Ok::<RawMap, Fault>(next));
        lemma_restore_fold(later, utxos, txs, inputs, from + 1);
    } else {
        assert(cur =~= utxos);
    }
}

/// The stored key of the output at position `at` of the transaction
/// `hash`, written at `time`.
pub open spec fn made_bytes(outputs: Seq<OutputView>, hash: Seq<u8>, time: i64, at: int) -> Seq<u8> {
    utxo_key(outputs[at].script, time, output_id(hash, at))
}

/// One of the outputs from position `from` up to `upto` is stored under
/// `k`.
pub open spec fn made_among(
    outputs: Seq<OutputView>,
    hash: Seq<u8>,
    time: i64,
    from: int,
    upto: int,
    k: Seq<u8>,
) -> bool {
    exists|j: int|
        0 <= from <= j < upto && j < outputs.len() && #[trigger] made_bytes(outputs, hash, time, j)
            == k
}

/// None of the outputs of the transaction `hash` is stored already.
pub open spec fn outputs_new(utxos: RawMap, outputs: Seq<OutputView>, hash: Seq<u8>, time: i64) -> bool {
    forall|j: int|
        0 <= j < outputs.len() ==> !utxos.contains_key(#[trigger] made_bytes(outputs, hash, time, j))
}

/// `cur` is `base` but for the outputs of the transaction `hash`.
pub open spec fn same_but_made(
    base: RawMap,
    cur: RawMap,
    outputs: Seq<OutputView>,
    hash: Seq<u8>,
    time: i64,
) -> bool {
    forall|k: Seq<u8>|
        !made_among(outputs, hash, time, 0, outputs.len() as int, k) ==> (#[trigger] cur.contains_key(k))
            == base.contains_key(k) && (base.contains_key(k) ==> cur[k] == base[k])
}

proof fn lemma_create_fold(
    base: RawMap,
    cur: RawMap,
    outputs: Seq<OutputView>,
    hash: Seq<u8>,
    time: i64,
    from: int,
)
    requires
        same_but_made(base, cur, outputs, hash, time),
        0 <= from <= outputs.len(),
    ensures
        same_but_made(base, outputs_created(cur, outputs, hash, time, from), outputs, hash, time),
    decreases outputs.len() - from,
{
    if from < outputs.len() {
        let key = made_bytes(outputs, hash, time, from);
        let next = utxo_written(
            cur,
            output_id(hash, from),
            outputs[from].amount,
            outputs[from].script,
            time,
        );
        assert(made_among(outputs, hash, time, 0, outputs.len() as int, key));
        assert forall|k: Seq<u8>|
            !made_among(outputs, hash, time, 0, outputs.len() as int, k) implies (
        #[trigger] next.contains_key(k)) == base.contains_key(k) && (base.contains_key(k)
            ==> next[k] == base[k]) by {
            assert(k != key);
            assert(cur.contains_key(k) == base.contains_key(k));
        }
        lemma_create_fold(base, next, outputs, hash, time, from + 1);
    }
}

proof fn lemma_remove_fold(
    cur: RawMap,
    outputs: Seq<OutputView>,
    hash: Seq<u8>,
    time: i64,
    from: int,
)
    requires
        0 <= from <= outputs.len(),
    ensures
        outputs_removed(cur, outputs, hash, time, from) == Map::new(
            |k: Seq<u8>|
                cur.contains_key(k) && !made_among(
                    outputs,
                    hash,
                    time,
                    from,
                    outputs.len() as int,
                    k,
                ),
            |k: Seq<u8>| cur[k],
        ),
    decreases outputs.len() - from,
{
    let all = outputs.len() as int;
    let goal = Map::new(
        |k: Seq<u8>| cur.contains_key(k) && !made_among(outputs, hash, time, from, all, k),
        |k: Seq<u8>| cur[k],
    );
    if from < outputs.len() {
        let key = made_bytes(outputs, hash, time, from);
        let next = utxo_removed(cur, output_id(hash, from), outputs[from].script, time);
        lemma_remove_fold(next, outputs, hash, time, from + 1);
        assert forall|k: Seq<u8>|
            made_among(outputs, hash, time, from, all, k) <==> (made_among(
                outputs,
                hash,
                time,
                from + 1,
                all,
                k,
            ) || k == key) by {
            if made_among(outputs, hash, time, from, all, k) {
                let j = choose|j: int|
                    0 <= from <= j < all && j < outputs.len() && #[trigger] made_bytes(
                        outputs,
                        hash,
                        time,
                        j,
                    ) == k;
                if j > from {
                    assert(made_among(outputs, hash, time, from + 1, all, k));
                }
            }
            if made_among(outputs, hash, time, from + 1, all, k) {
                let j = choose|j: int|
                    0 <= from + 1 <= j < all && j < outputs.len() && #[trigger] made_bytes(
                        outputs,
                        hash,
                        time,
                        j,
                    ) == k;
                assert(from <= j && made_bytes(outputs, hash, time, j) == k);
            }
            if k == key {
                assert(from <= from < all && made_bytes(outputs, hash, time, from) == k);
            }
        }
        assert(outputs_removed(cur, outputs, hash, time, from) =~= goal);
    } else {
        assert forall|k: Seq<u8>| !made_among(outputs, hash, time, from, all, k) by {
        }
        assert(outputs_removed(cur, outputs, hash, time, from) =~= goal);
    }
}

/// Where a digest could be put into the sets of the keys from position
/// `from` on, each of these keys had something that can be read.
proof fn lemma_added_was_readable(index: RawMap, whos: Seq<Seq<u8>>, hash: Seq<u8>, from: int)
    requires
        index_put_all(index, whos, hash, true, from) is Ok,
        0 <= from,
    ensures
        forall|i: int| from <= i < whos.len() ==> stored_set(index, #[trigger] whos[i]) is Some,
    decreases whos.len() - from,
{
    if from < whos.len() {
        let who = whos[from];
        let mid = index_put(index, who, hash, true)->Ok_0;
        lemma_added_was_readable(mid, whos, hash, from + 1);
        assert forall|i: int| from <= i < whos.len() implies stored_set(
            index,
            #[trigger] whos[i],
        ) is Some by {
            if i > from && whos[i] != who {
                assert(stored_set(mid, whos[i]) == stored_set(index, whos[i]));
            }
        }
    }
}

/// After a digest was put into the sets of some keys, each of these keys
/// has something that can be read.
proof fn lemma_added_is_readable(index: RawMap, whos: Seq<Seq<u8>>, hash: Seq<u8>, from: int)
    requires
        index_put_all(index, whos, hash, true, from) is Ok,
        readable(index, whos, from),
        hash.len() == 32,
        0 <= from <= whos.len(),
    ensures
        readable(index_put_all(index, whos, hash, true, from)->Ok_0, whos, whos.len() as int),
    decreases whos.len() - from,
{
    if from < whos.len() {
        let who = whos[from];
        let mid = index_put(index, who, hash, true)->Ok_0;
        lemma_read_set(index, who);
        lemma_with_is_valid(stored_set(index, who).unwrap(), hash);
        assert forall|i: int| 0 <= i < from + 1 && i < whos.len() implies stored_set(
            mid,
            #[trigger] whos[i],
        ) is Some by {
            if whos[i] != who {
                assert(stored_set(mid, whos[i]) == stored_set(index, whos[i]));
            }
        }
        lemma_added_is_readable(mid, whos, hash, from + 1);
    }
}

/// A digest can be taken out of the sets of keys that each have something
/// that can be read.
proof fn lemma_taken_is_ok(index: RawMap, whos: Seq<Seq<u8>>, hash: Seq<u8>, from: int)
    requires
        readable(index, whos, whos.len() as int),
        0 <= from <= whos.len(),
    ensures
        index_put_all(index, whos, hash, false, from) is Ok,
    decreases whos.len() - from,
{
    if from < whos.len() {
        let who = whos[from];
        assert(stored_set(index, who) is Some);
        lemma_read_set(index, who);
        lemma_without_is_valid(stored_set(index, who).unwrap(), hash);
        let mid = index_put(index, who, hash, false)->Ok_0;
        assert forall|i: int| 0 <= i < whos.len() implies stored_set(
            mid,
            #[trigger] whos[i],
        ) is Some by {
            if whos[i] != who {
                assert(stored_set(mid, whos[i]) == stored_set(index, whos[i]));
            }
        }
        lemma_taken_is_ok(mid, whos, hash, from + 1);
    }
}

/// Where the outputs that the inputs from position `from` on spend could
/// be removed, each of them was found.
proof fn lemma_consumed_were_found(txs: RawMap, utxos: RawMap, inputs: Seq<InputView>, from: int)
    requires
        inputs_consumed(txs, utxos, inputs, from) is Ok,
        0 <= from,
    ensures
        forall|i: int| from <= i < inputs.len() ==> spent_key(txs, #[trigger] inputs[i]) is Ok,
    decreases inputs.len() - from,
{
    if from < inputs.len() {
        lemma_consumed_were_found(
            txs,
            input_consumed(txs, utxos, inputs[from])->Ok_0,
            inputs,
            from + 1,
        );
    }
}

/// The outputs that the inputs spend can be written again where each of
/// them is found.
proof fn lemma_restored_is_ok(txs: RawMap, utxos: RawMap, inputs: Seq<InputView>, from: int)
    requires
        forall|i: int| 0 <= i < inputs.len() ==> spent_key(txs, #[trigger] inputs[i]) is Ok,
        0 <= from,
    ensures
        inputs_restored(txs, utxos, inputs, from) is Ok,
    decreases inputs.len() - from,
{
    if from < inputs.len() {
        assert(spent_key(txs, inputs[from]) is Ok);
        lemma_restored_is_ok(
            txs,
            input_restored(txs, utxos, inputs[from])->Ok_0,
            inputs,
            from + 1,
        );
    }
}

/// The inputs find the outputs that they spend after the transaction was
/// stored as they did before.
proof fn lemma_found_as_before(txs: RawMap, hash: Seq<u8>, stored: Seq<u8>, inputs: Seq<InputView>)
    requires
        !txs.contains_key(hash),
        forall|i: int| 0 <= i < inputs.len() ==> spent_key(txs, #[trigger] inputs[i]) is Ok,
    ensures
        forall|i: int|
            0 <= i < inputs.len() ==> spent_key(txs.insert(hash, stored), #[trigger] inputs[i])
                == spent_key(txs, inputs[i]),
{
    assert forall|i: int| 0 <= i < inputs.len() implies spent_key(
        txs.insert(hash, stored),
        #[trigger] inputs[i],
    ) == spent_key(txs, inputs[i]) by {
        match inputs[i].id {
            SourceIdView::Ud { .. } => {},
            SourceIdView::Utxo(id) => {
                assert(spent_key(txs, inputs[i]) is Ok);
                assert(origin_of(txs, id) is Ok);
                assert(id.tx_hash != hash);
            },
        }
    }
}

/// The writing of a transaction can always be undone: after a
/// transaction was written under a digest of 32 bytes that was not stored
/// before, undoing the writing succeeds, hands the transaction back and
/// leaves the stored transactions as they were before the writing.
pub proof fn lemma_revert_after_write(
    s: GvaState,
    block: BlockstampView,
    time: i64,
    hash: Seq<u8>,
    tx: TxDocView,
)
    requires
        hash.len() == 32,
        TxDbV2::valid(TxDbView { tx, written_block: block, written_time: time }),
        !s.txs.contains_key(hash),
        tx_written(s, block, time, hash, tx) is Ok,
    ensures
        tx_reverted(tx_written(s, block, time, hash, tx)->Ok_0, hash) matches Ok((after, found))
            && found == Some(tx) && after.txs == s.txs,
{
    let stored = TxDbView { tx, written_block: block, written_time: time };
    let written = tx_written(s, block, time, hash, tx)->Ok_0;
    TxDbV2::lemma_round_trip(stored);
    // the outputs that the transaction had spent are found again
    lemma_consumed_were_found(s.txs, s.utxos_by_script, tx.inputs, 0);
    lemma_found_as_before(s.txs, hash, TxDbV2::encoded(stored), tx.inputs);
    let emptied = outputs_removed(written.utxos_by_script, tx.outputs, hash, time, 0);
    lemma_restored_is_ok(written.txs, emptied, tx.inputs, 0);
    // the sets that the digest was put into can be read
    lemma_added_is_readable(s.txs_by_issuer, tx.issuers, hash, 0);
    lemma_taken_is_ok(written.txs_by_issuer, tx.issuers, hash, 0);
    lemma_added_is_readable(s.txs_by_recipient, tx.recipients, hash, 0);
    lemma_taken_is_ok(written.txs_by_recipient, tx.recipients, hash, 0);
    assert(written.txs.remove(hash) =~= s.txs);
}

/// Each output that an input spends is stored as unspent with the amount
/// of the input.
pub open spec fn spent_are_stored(txs: RawMap, utxos: RawMap, inputs: Seq<InputView>) -> bool {
    forall|i: int|
        0 <= i < inputs.len() ==> match spent_bytes(txs, #[trigger] inputs[i]) {
            Some(key) => utxos.contains_key(key) && utxos[key] == SourceAmount::encoded(
                inputs[i].amount,
            ),
            None => true,
        }
}

/// None of `whos` has the empty set in the index.
pub open spec fn no_empty_set(index: RawMap, whos: Seq<Seq<u8>>) -> bool {
    forall|i: int|
        0 <= i < whos.len() && index.contains_key(#[trigger] whos[i]) ==> HashBTSetV2::decoded(
            index[whos[i]],
        ) != Some(Seq::<Seq<u8>>::empty())
}

/// The writing of a transaction can be undone without a trace: no
/// transaction is stored under its digest, the digest is in the set of
/// none of its issuers and recipients, none of these sets is empty, each
/// output that it spends is stored as unspent with the amount of the
/// input, and none of its own outputs is stored as unspent already.
pub open spec fn leaves_no_trace(s: GvaState, time: i64, hash: Seq<u8>, tx: TxDocView) -> bool {
    &&& !s.txs.contains_key(hash)
    &&& unlisted(s.txs_by_issuer, tx.issuers, hash)
    &&& unlisted(s.txs_by_recipient, tx.recipients, hash)
    &&& no_empty_set(s.txs_by_issuer, tx.issuers)
    &&& no_empty_set(s.txs_by_recipient, tx.recipients)
    &&& spent_are_stored(s.txs, s.utxos_by_script, tx.inputs)
    &&& outputs_new(s.utxos_by_script, tx.outputs, hash, time)
}

/// Keys whose sets can be read and are not the empty set have sets that
/// are not empty.
proof fn lemma_sets_sound(index: RawMap, whos: Seq<Seq<u8>>)
    requires
        no_empty_set(index, whos),
        forall|i: int| 0 <= i < whos.len() ==> stored_set(index, #[trigger] whos[i]) is Some,
    ensures
        sets_sound(index, whos),
{
    assert forall|i: int|
        0 <= i < whos.len() && index.contains_key(#[trigger] whos[i]) implies sound_set(
        index[whos[i]],
    ) by {
        let set = HashBTSetV2::decoded(index[whos[i]]).unwrap();
        assert(stored_set(index, whos[i]) is Some);
        if set.len() == 0 {
            assert(set =~= Seq::<Seq<u8>>::empty());
        }
    }
}

/// After a transaction was written, undoing the writing succeeds,
/// restores each of the four collections to exactly what it held before,
/// byte for byte, and hands the transaction back, whenever the writing
/// leaves no trace. An issuer or a recipient that had no set before has
/// none afterwards.
pub proof fn lemma_write_then_revert(
    s: GvaState,
    block: BlockstampView,
    time: i64,
    hash: Seq<u8>,
    tx: TxDocView,
)
    requires
        hash.len() == 32,
        TxDbV2::valid(TxDbView { tx, written_block: block, written_time: time }),
        tx_written(s, block, time, hash, tx) is Ok,
        leaves_no_trace(s, time, hash, tx),
    ensures
        tx_reverted(tx_written(s, block, time, hash, tx)->Ok_0, hash) == Ok::<
            (GvaState, Option<TxDocView>),
            Fault,
        >((s, Some(tx))),
{
    let stored = TxDbView { tx, written_block: block, written_time: time };
    let all = tx.outputs.len() as int;
    // the indexes
    lemma_added_was_readable(s.txs_by_issuer, tx.issuers, hash, 0);
    lemma_added_was_readable(s.txs_by_recipient, tx.recipients, hash, 0);
    lemma_sets_sound(s.txs_by_issuer, tx.issuers);
    lemma_sets_sound(s.txs_by_recipient, tx.recipients);
    lemma_index_round_trip(s.txs_by_issuer, tx.issuers, hash);
    lemma_index_round_trip(s.txs_by_recipient, tx.recipients, hash);
    // the outputs that the transaction spends
    lemma_consumed_were_found(s.txs, s.utxos_by_script, tx.inputs, 0);
    assert(inputs_unspent(s.txs, s.utxos_by_script, tx.inputs)) by {
        assert forall|i: int| 0 <= i < tx.inputs.len() implies match (#[trigger] tx.inputs[i]).id {
            SourceIdView::Ud { .. } => true,
            SourceIdView::Utxo(id) => {
                &&& origin_of(s.txs, id) is Ok
                &&& s.utxos_by_script.contains_key(spent_bytes(s.txs, tx.inputs[i]).unwrap())
                &&& s.utxos_by_script[spent_bytes(s.txs, tx.inputs[i]).unwrap()]
                    == SourceAmount::encoded(tx.inputs[i].amount)
            },
        } by {
            assert(spent_key(s.txs, tx.inputs[i]) is Ok);
        }
    }
    lemma_consume_fold(s.utxos_by_script, s.txs, tx.inputs, 0);
    assert(without_spent(s.utxos_by_script, s.txs, tx.inputs, 0) =~= s.utxos_by_script);
    let spent = without_spent(s.utxos_by_script, s.txs, tx.inputs, tx.inputs.len() as int);
    // the outputs that it makes
    lemma_create_fold(spent, spent, tx.outputs, hash, time, 0);
    let made = outputs_created(spent, tx.outputs, hash, time, 0);
    let written = tx_written(s, block, time, hash, tx)->Ok_0;
    assert(written.txs == s.txs.insert(hash, TxDbV2::encoded(stored)));
    assert(written.utxos_by_script == made);
    // undoing it
    TxDbV2::lemma_round_trip(stored);
    lemma_remove_fold(made, tx.outputs, hash, time, 0);
    let emptied = outputs_removed(made, tx.outputs, hash, time, 0);
    assert(emptied =~= spent) by {
        assert forall|k: Seq<u8>|
            made_among(tx.outputs, hash, time, 0, all, k) implies !spent.contains_key(k) by {
            let j = choose|j: int|
                0 <= 0 <= j < all && j < tx.outputs.len() && #[trigger] made_bytes(
                    tx.outputs,
                    hash,
                    time,
                    j,
                ) == k;
            assert(!s.utxos_by_script.contains_key(made_bytes(tx.outputs, hash, time, j)));
        }
        assert forall|k: Seq<u8>|
            !made_among(tx.outputs, hash, time, 0, all, k) implies (#[trigger] made.contains_key(k))
            == spent.contains_key(k) && (spent.contains_key(k) ==> made[k] == spent[k]) by {
        }
    }
    lemma_found_as_before(s.txs, hash, TxDbV2::encoded(stored), tx.inputs);
    lemma_restore_fold(written.txs, s.utxos_by_script, s.txs, tx.inputs, 0);
    assert(partly_restored(s.utxos_by_script, s.txs, tx.inputs, 0) =~= spent);
    assert(written.txs.remove(hash) =~= s.txs);
    let restored = GvaState { utxos_by_script: s.utxos_by_script, ..written };
    assert(tx_removed(restored, hash, tx) == Ok::<GvaState, Fault>(s));
}

} // verus!
