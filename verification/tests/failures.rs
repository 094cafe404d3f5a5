use kv_typed::backend::flaky::{Flaky, FlakyConf};
use kv_typed::backend::memory::Mem;
use kv_typed::backend::undo::undo_of;
use kv_typed::backend::{Backend, BackendIter, RawBound, RawOp};
use kv_typed::codec::{Codec, Key};
use kv_typed::collection::{value_of_found, Collection, KeyBound};
use kv_typed::error::{KvError, TransactionError};
use kv_typed::gva_v1::GvaV1Db;
use kv_typed::iter::{entry_of_answer, key_of_answer, value_of_answer};
use kv_typed::tx::{revert_tx, write_tx};
use kv_typed::values::hash_set::HashBTSetV2;
use kv_typed::values::tx_db::{
    Blockstamp, SourceAmount, SourceIdV10, TransactionDocumentV10, TransactionInputV10,
    TransactionOutputV10,
};

fn out_of_order() -> KvError {
    KvError::BackendError("the engine is out of order".to_owned())
}

fn entries<B: Backend>(backend: &B) -> Vec<(Vec<u8>, Vec<u8>)> {
    let mut it = backend
        .scan(&RawBound::Unbounded, &RawBound::Unbounded)
        .expect("reads are on");
    let mut all = vec![];
    while let Some(entry) = it.next_entry() {
        all.push(entry.expect("memory"));
    }
    all
}

fn dump<B: Backend, K: Key, V: Codec>(col: &Collection<B, K, V>) -> Vec<(Vec<u8>, Vec<u8>)> {
    col.iter(&KeyBound::Unbounded, &KeyBound::Unbounded)
        .expect("reads are on")
        .collect()
        .expect("sound")
        .iter()
        .map(|(k, v)| (k.as_bytes(), v.as_bytes()))
        .collect()
}

fn dump_all<B: Backend>(db: &GvaV1Db<B>) -> Vec<Vec<(Vec<u8>, Vec<u8>)>> {
    vec![
        dump(&db.txs),
        dump(&db.txs_by_issuer),
        dump(&db.txs_by_recipient),
        dump(&db.utxos_by_script),
    ]
}

#[test]
fn a_failing_engine_is_reported_and_nothing_changes() {
    let mut col: Collection<Flaky, u32, String> = Collection::new(Flaky::new(Mem::new(), true, 1));
    let listener = col.subscribe(None).expect("the hub is open");
    assert_eq!(col.upsert(1, "a".to_owned()), Ok(()));
    assert!(col.try_recv(listener).is_some());

    // the one write is spent
    assert_eq!(col.upsert(2, "b".to_owned()), Err(out_of_order()));
    assert_eq!(col.remove(1), Err(out_of_order()));
    assert_eq!(col.clear(), Err(out_of_order()));
    let mut batch = col.new_batch();
    batch.upsert(3, "c".to_owned());
    assert_eq!(col.write_batch(batch), Err(out_of_order()));
    let r: Result<(), TransactionError<(), String>> = col.write(|mut tx| {
        tx.remove(1);
        Ok(((), tx.into_batch()))
    });
    assert!(matches!(r, Err(TransactionError::BackendErr(_))));

    assert_eq!(col.get(&1), Ok(Some("a".to_owned())));
    assert_eq!(col.count(), Ok(1));
    assert!(col.try_recv(listener).is_none());
}

#[test]
fn a_mended_engine_works_again() {
    let mut engine = Flaky::new(Mem::new(), false, 0);
    assert!(engine.put(b"k".to_vec(), b"v".to_vec()).is_err());
    assert!(engine.get(b"k").is_err());
    engine.mend(true, 2);
    assert_eq!(engine.put(b"k".to_vec(), b"v".to_vec()), Ok(()));
    assert_eq!(engine.get(b"k"), Ok(Some(b"v".to_vec())));
    assert_eq!(engine.delete(b"k"), Ok(()));
    assert_eq!(engine.clear(), Err("the engine is out of order".to_owned()));
    assert_eq!(engine.count(), Ok(0));
}

#[test]
fn a_failing_read_is_reported() {
    let col: Collection<Flaky, u32, String> = Collection::open(FlakyConf { reads: false, writes: 9 })
        .expect("a flaky engine opens");
    assert_eq!(col.get(&1), Err(out_of_order()));
    assert_eq!(col.count(), Err(out_of_order()));
    assert!(matches!(
        col.iter(&KeyBound::Unbounded, &KeyBound::Unbounded),
        Err(KvError::BackendError(_))
    ));
    assert!(matches!(
        col.iter_rev(&KeyBound::Unbounded, &KeyBound::Unbounded),
        Err(KvError::BackendError(_))
    ));
    assert_eq!(col.get_ref(&1, |v| Ok(v.len())), Err(out_of_order()));
}

fn amount(units: i64) -> SourceAmount {
    SourceAmount { amount: units, base: 0 }
}

fn doc() -> TransactionDocumentV10 {
    TransactionDocumentV10 {
        issuers: vec![[1u8; 32]],
        recipients: vec![[2u8; 32]],
        inputs: vec![TransactionInputV10 {
            amount: amount(10),
            id: SourceIdV10::Ud { issuer: [1u8; 32], block_number: 1 },
        }],
        outputs: vec![TransactionOutputV10 { amount: amount(10), script: [7u8; 32] }],
    }
}

fn flaky_db(txs: usize, issuer: usize, recipient: usize, utxos: usize) -> GvaV1Db<Flaky> {
    let mut earlier = HashBTSetV2::new();
    earlier.insert([8u8; 32]);
    let mut by_issuer = Mem::new();
    by_issuer.put(vec![1u8; 32], earlier.as_bytes()).expect("memory");
    GvaV1Db::new(
        Flaky::new(Mem::new(), true, txs),
        Flaky::new(by_issuer, true, issuer),
        Flaky::new(Mem::new(), true, recipient),
        Flaky::new(Mem::new(), true, utxos),
    )
}

fn block() -> Blockstamp {
    Blockstamp { number: 1, hash: [1u8; 32] }
}

#[test]
fn a_commit_that_fails_half_way_is_taken_back() {
    // the last collection to be written fails: the three before it are taken back
    let mut db = flaky_db(0, 2, 2, 2);
    let before = dump_all(&db);
    let issuer_listener = db.txs_by_issuer.subscribe(None).expect("open");
    assert_eq!(write_tx(block(), 5, &mut db, [9u8; 32], doc()), Err(out_of_order()));
    assert_eq!(dump_all(&db), before);
    assert!(db.txs_by_issuer.try_recv(issuer_listener).is_none());

    // the third one fails
    let mut db = flaky_db(9, 2, 2, 0);
    let before = dump_all(&db);
    assert_eq!(write_tx(block(), 5, &mut db, [9u8; 32], doc()), Err(out_of_order()));
    assert_eq!(dump_all(&db), before);

    // the first one fails: nothing was written
    let mut db = flaky_db(9, 0, 9, 9);
    let before = dump_all(&db);
    assert_eq!(write_tx(block(), 5, &mut db, [9u8; 32], doc()), Err(out_of_order()));
    assert_eq!(dump_all(&db), before);
}

#[test]
fn what_cannot_be_taken_back_stays_written() {
    // the index of the issuers takes its one write and then fails to take it back
    let mut db = flaky_db(9, 1, 9, 0);
    let before = dump_all(&db);
    assert_eq!(write_tx(block(), 5, &mut db, [9u8; 32], doc()), Err(out_of_order()));
    let after = dump_all(&db);
    assert_eq!(after[0], before[0]);
    assert_ne!(after[1], before[1]);
    assert_eq!(after[2], before[2]);
    assert_eq!(after[3], before[3]);
    let mut with_tx = HashBTSetV2::new();
    with_tx.insert([8u8; 32]);
    with_tx.insert([9u8; 32]);
    assert_eq!(db.txs_by_issuer.get(&[1u8; 32]), Ok(Some(with_tx)));
}

#[test]
fn a_commit_on_sound_engines_tells_every_collection() {
    let mut db = flaky_db(9, 9, 9, 9);
    let txs = db.txs.subscribe(None).expect("open");
    let issuers = db.txs_by_issuer.subscribe(None).expect("open");
    let recipients = db.txs_by_recipient.subscribe(None).expect("open");
    let utxos = db.utxos_by_script.subscribe(None).expect("open");
    assert_eq!(write_tx(block(), 5, &mut db, [9u8; 32], doc()), Ok(()));
    assert_eq!(db.txs.try_recv(txs).map(|e| e.len()), Some(1));
    assert_eq!(db.txs_by_issuer.try_recv(issuers).map(|e| e.len()), Some(1));
    assert_eq!(db.txs_by_recipient.try_recv(recipients).map(|e| e.len()), Some(1));
    assert_eq!(db.utxos_by_script.try_recv(utxos).map(|e| e.len()), Some(1));
    assert_eq!(revert_tx(&mut db, &[9u8; 32]), Ok(Some(doc())));
    assert_eq!(db.txs.count(), Ok(0));
}

#[test]
fn undo_takes_a_batch_back() {
    let mut mem = Mem::new();
    for (k, v) in [(b"a", b"1"), (b"b", b"2"), (b"c", b"3")] {
        mem.put(k.to_vec(), v.to_vec()).expect("memory");
    }
    let before = entries(&mem);

    let ops = vec![
        RawOp::Upsert(b"a".to_vec(), b"9".to_vec()),
        RawOp::Remove(b"b".to_vec()),
        RawOp::Upsert(b"z".to_vec(), b"0".to_vec()),
        RawOp::Remove(b"y".to_vec()),
        RawOp::Upsert(b"a".to_vec(), b"8".to_vec()),
    ];
    let undo = undo_of(&mem, &ops).expect("memory");
    mem.apply_batch(&ops).expect("memory");
    assert_eq!(
        entries(&mem),
        vec![(b"a".to_vec(), b"8".to_vec()), (b"c".to_vec(), b"3".to_vec()), (b"z".to_vec(), b"0".to_vec())]
    );
    mem.apply_batch(&undo).expect("memory");
    assert_eq!(entries(&mem), before);

    let ops = vec![
        RawOp::Upsert(b"q".to_vec(), b"7".to_vec()),
        RawOp::RemoveAll,
        RawOp::Upsert(b"b".to_vec(), b"5".to_vec()),
    ];
    let undo = undo_of(&mem, &ops).expect("memory");
    assert_eq!(undo.len(), 4);
    mem.apply_batch(&ops).expect("memory");
    assert_eq!(entries(&mem), vec![(b"b".to_vec(), b"5".to_vec())]);
    mem.apply_batch(&undo).expect("memory");
    assert_eq!(entries(&mem), before);

    let flaky = Flaky::new(Mem::new(), false, 9);
    assert!(undo_of(&flaky, &ops).is_err());
}

#[test]
fn the_failure_of_an_engine_is_handed_on_with_its_message() {
    let failed = || Some(Err::<(Vec<u8>, Vec<u8>), String>("disk on fire".to_owned()));
    let handed_on = || KvError::BackendError("disk on fire".to_owned());
    assert_eq!(key_of_answer::<u32>(failed()), Some(Err(handed_on())));
    assert_eq!(value_of_answer::<String>(failed()), Some(Err(handed_on())));
    assert_eq!(entry_of_answer::<u32, String>(failed()), Some(Err(handed_on())));
    assert_eq!(value_of_found::<String>(Err("disk on fire".to_owned())), Err(handed_on()));

    // the end of a walk stays the end, and nothing stored stays nothing
    assert_eq!(key_of_answer::<u32>(None), None);
    assert_eq!(value_of_answer::<String>(None), None);
    assert_eq!(entry_of_answer::<u32, String>(None), None);
    assert_eq!(value_of_found::<String>(Ok(None)), Ok(None));

    // an entry is decoded
    let entry = || Some(Ok::<(Vec<u8>, Vec<u8>), String>((7u32.as_bytes(), b"seven".to_vec())));
    assert_eq!(key_of_answer::<u32>(entry()), Some(Ok(7)));
    assert_eq!(value_of_answer::<String>(entry()), Some(Ok("seven".to_owned())));
    assert_eq!(entry_of_answer::<u32, String>(entry()), Some(Ok((7, "seven".to_owned()))));
    assert_eq!(value_of_found::<String>(Ok(Some(b"seven".to_vec()))), Ok(Some("seven".to_owned())));

    // damaged bytes are reported as such, the key first
    let damaged = || Some(Ok::<(Vec<u8>, Vec<u8>), String>((vec![1, 2, 3], vec![0xff])));
    assert!(matches!(key_of_answer::<u32>(damaged()), Some(Err(KvError::DeserError(_)))));
    assert!(matches!(value_of_answer::<String>(damaged()), Some(Err(KvError::DeserError(_)))));
    let of_key = key_of_answer::<u32>(damaged()).map(|r| r.map(|_| ()));
    let of_entry = entry_of_answer::<u32, String>(damaged()).map(|r| r.map(|_| ()));
    assert_eq!(of_entry, of_key);
    assert!(matches!(value_of_found::<String>(Ok(Some(vec![0xff]))), Err(KvError::DeserError(_))));
}
