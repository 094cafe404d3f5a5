use kv_typed::backend::memory::Mem;
use kv_typed::collection::KeyBound;
use kv_typed::current_ud::{exec_req_current_ud, BcaRespTypeV0, ExecReqTypeError};
use kv_typed::error::{KvError, KvResult};
use kv_typed::event::Event;
use kv_typed::gva_v1::GvaV1Db;
use kv_typed::tx::{remove_tx, revert_tx, write_tx};
use kv_typed::values::hash_set::HashBTSetV2;
use kv_typed::values::tx_db::{
    Blockstamp, SourceAmount, SourceIdV10, TransactionDocumentV10, TransactionInputV10,
    TransactionOutputV10, TxDbV2, UtxoIdV10,
};
use kv_typed::values::utxo::UtxoKeyV1;

type Bytes32 = [u8; 32];

const ALICE: Bytes32 = [1u8; 32];
const BOB: Bytes32 = [2u8; 32];
const CAROL: Bytes32 = [3u8; 32];
const ALICE_SCRIPT: Bytes32 = [11u8; 32];
const BOB_SCRIPT: Bytes32 = [12u8; 32];
const CAROL_SCRIPT: Bytes32 = [13u8; 32];
const TX0: Bytes32 = [100u8; 32];
const TX1: Bytes32 = [101u8; 32];

fn amount(units: i64) -> SourceAmount {
    SourceAmount { amount: units, base: 0 }
}

fn new_db() -> GvaV1Db<Mem> {
    GvaV1Db::new(Mem::new(), Mem::new(), Mem::new(), Mem::new())
}

fn block(number: u32) -> Blockstamp {
    Blockstamp { number, hash: [number as u8; 32] }
}

fn set_of(hashes: &[Bytes32]) -> HashBTSetV2 {
    let mut set = HashBTSetV2::new();
    for h in hashes {
        set.insert(*h);
    }
    set
}

/// Alice's dividend is paid out to Alice and Bob.
fn tx0() -> TransactionDocumentV10 {
    TransactionDocumentV10 {
        issuers: vec![ALICE],
        recipients: vec![ALICE, BOB],
        inputs: vec![TransactionInputV10 {
            amount: amount(100),
            id: SourceIdV10::Ud { issuer: ALICE, block_number: 1 },
        }],
        outputs: vec![
            TransactionOutputV10 { amount: amount(60), script: ALICE_SCRIPT },
            TransactionOutputV10 { amount: amount(40), script: BOB_SCRIPT },
        ],
    }
}

/// Bob spends the second output of the first transaction and pays Carol.
fn tx1() -> TransactionDocumentV10 {
    TransactionDocumentV10 {
        issuers: vec![BOB],
        recipients: vec![CAROL],
        inputs: vec![TransactionInputV10 {
            amount: amount(40),
            id: SourceIdV10::Utxo(UtxoIdV10 { tx_hash: TX0, output_index: 1 }),
        }],
        outputs: vec![TransactionOutputV10 { amount: amount(40), script: CAROL_SCRIPT }],
    }
}

fn utxo_key(script: Bytes32, written_time: i64, tx_hash: Bytes32, output_index: usize) -> UtxoKeyV1 {
    UtxoKeyV1 { script, written_time, id: UtxoIdV10 { tx_hash, output_index } }
}

fn unspent(
    db: &GvaV1Db<Mem>,
    script: Bytes32,
    written_time: i64,
    tx_hash: Bytes32,
    output_index: usize,
) -> Option<SourceAmount> {
    db.utxos_by_script
        .get(&utxo_key(script, written_time, tx_hash, output_index))
        .expect("memory")
}

fn missing(tx_hash_hex_byte: &str, output_index: usize) -> KvError {
    KvError::DbCorrupted(format!(
        "Not found origin tx of uxto {}:{}",
        tx_hash_hex_byte.repeat(32),
        output_index
    ))
}

fn dump<K: kv_typed::codec::Key, V: kv_typed::codec::Codec>(
    col: &kv_typed::collection::Collection<Mem, K, V>,
) -> Vec<(Vec<u8>, Vec<u8>)> {
    col.iter(&KeyBound::Unbounded, &KeyBound::Unbounded)
        .expect("memory")
        .collect()
        .expect("sound")
        .iter()
        .map(|(k, v)| (k.as_bytes(), v.as_bytes()))
        .collect()
}

fn dump_all(db: &GvaV1Db<Mem>) -> Vec<Vec<(Vec<u8>, Vec<u8>)>> {
    vec![
        dump(&db.txs),
        dump(&db.txs_by_issuer),
        dump(&db.txs_by_recipient),
        dump(&db.utxos_by_script),
    ]
}

#[test]
fn write_tx_makes_its_five_changes() -> KvResult<()> {
    let mut db = new_db();
    write_tx(block(1), 1000, &mut db, TX0, tx0())?;

    assert_eq!(
        db.txs.get(&TX0)?,
        Some(TxDbV2 { tx: tx0(), written_block: block(1), written_time: 1000 })
    );
    assert_eq!(db.txs_by_issuer.get(&ALICE)?, Some(set_of(&[TX0])));
    assert_eq!(db.txs_by_issuer.get(&BOB)?, None);
    assert_eq!(db.txs_by_recipient.get(&ALICE)?, Some(set_of(&[TX0])));
    assert_eq!(db.txs_by_recipient.get(&BOB)?, Some(set_of(&[TX0])));
    assert_eq!(unspent(&db, ALICE_SCRIPT, 1000, TX0, 0), Some(amount(60)));
    assert_eq!(unspent(&db, BOB_SCRIPT, 1000, TX0, 1), Some(amount(40)));
    assert_eq!(db.utxos_by_script.count()?, 2);

    write_tx(block(2), 2000, &mut db, TX1, tx1())?;
    assert_eq!(db.txs.count()?, 2);
    assert_eq!(db.txs_by_issuer.get(&BOB)?, Some(set_of(&[TX1])));
    assert_eq!(db.txs_by_recipient.get(&CAROL)?, Some(set_of(&[TX1])));
    // the spent output is gone, the new one is there
    assert_eq!(unspent(&db, BOB_SCRIPT, 1000, TX0, 1), None);
    assert_eq!(unspent(&db, CAROL_SCRIPT, 2000, TX1, 0), Some(amount(40)));
    assert_eq!(unspent(&db, ALICE_SCRIPT, 1000, TX0, 0), Some(amount(60)));
    assert_eq!(db.utxos_by_script.count()?, 2);
    Ok(())
}

#[test]
fn revert_tx_undoes_write_tx() -> KvResult<()> {
    let mut db = new_db();
    write_tx(block(1), 1000, &mut db, TX0, tx0())?;
    // Bob has issued nothing and Carol has received nothing so far
    assert_eq!(db.txs_by_issuer.get(&BOB)?, None);
    assert_eq!(db.txs_by_recipient.get(&CAROL)?, None);
    let before = dump_all(&db);

    write_tx(block(2), 2000, &mut db, TX1, tx1())?;
    assert_ne!(dump_all(&db), before);

    assert_eq!(revert_tx(&mut db, &TX1)?, Some(tx1()));
    assert_eq!(dump_all(&db), before);
    assert_eq!(db.txs_by_issuer.get(&BOB)?, None);
    assert_eq!(db.txs_by_recipient.get(&CAROL)?, None);
    assert_eq!(unspent(&db, BOB_SCRIPT, 1000, TX0, 1), Some(amount(40)));

    // nothing is stored under that digest any more
    assert_eq!(revert_tx(&mut db, &TX1)?, None);
    assert_eq!(dump_all(&db), before);
    Ok(())
}

#[test]
fn revert_tx_leaves_no_set_for_a_new_issuer() -> KvResult<()> {
    let mut db = new_db();
    let before = dump_all(&db);
    write_tx(block(1), 1000, &mut db, TX0, tx0())?;
    assert_eq!(revert_tx(&mut db, &TX0)?, Some(tx0()));
    assert_eq!(db.txs.count()?, 0);
    assert_eq!(db.utxos_by_script.count()?, 0);
    assert_eq!(db.txs_by_issuer.get(&ALICE)?, None);
    assert_eq!(db.txs_by_recipient.get(&ALICE)?, None);
    assert_eq!(db.txs_by_recipient.get(&BOB)?, None);
    assert_eq!(db.txs_by_issuer.count()?, 0);
    assert_eq!(db.txs_by_recipient.count()?, 0);
    assert_eq!(dump_all(&db), before);
    Ok(())
}

#[test]
fn one_output_of_two_under_a_script_is_removed_by_its_name() -> KvResult<()> {
    let mut db = new_db();
    let mut first = tx0();
    first.outputs = vec![
        TransactionOutputV10 { amount: amount(60), script: BOB_SCRIPT },
        TransactionOutputV10 { amount: amount(40), script: BOB_SCRIPT },
    ];
    write_tx(block(1), 1000, &mut db, TX0, first)?;
    let before = dump_all(&db);

    // the second output is spent, the first one stays
    write_tx(block(2), 2000, &mut db, TX1, tx1())?;
    assert_eq!(unspent(&db, BOB_SCRIPT, 1000, TX0, 0), Some(amount(60)));
    assert_eq!(unspent(&db, BOB_SCRIPT, 1000, TX0, 1), None);

    assert_eq!(revert_tx(&mut db, &TX1)?, Some(tx1()));
    assert_eq!(unspent(&db, BOB_SCRIPT, 1000, TX0, 1), Some(amount(40)));
    assert_eq!(dump_all(&db), before);
    Ok(())
}

#[test]
fn a_set_that_still_holds_a_digest_stays_in_the_index() -> KvResult<()> {
    let mut db = new_db();
    write_tx(block(1), 1000, &mut db, TX0, tx0())?;
    let mut second = tx1();
    second.issuers = vec![ALICE];
    second.recipients = vec![BOB];
    let before = dump_all(&db);
    write_tx(block(2), 2000, &mut db, TX1, second.clone())?;
    assert_eq!(db.txs_by_issuer.get(&ALICE)?, Some(set_of(&[TX0, TX1])));
    assert_eq!(db.txs_by_recipient.get(&BOB)?, Some(set_of(&[TX0, TX1])));
    assert_eq!(revert_tx(&mut db, &TX1)?, Some(second));
    assert_eq!(db.txs_by_issuer.get(&ALICE)?, Some(set_of(&[TX0])));
    assert_eq!(db.txs_by_recipient.get(&BOB)?, Some(set_of(&[TX0])));
    assert_eq!(dump_all(&db), before);
    Ok(())
}

#[test]
fn write_tx_tells_the_subscribers_of_each_change() -> KvResult<()> {
    let mut db = new_db();
    write_tx(block(1), 1000, &mut db, TX0, tx0())?;
    let txs = db.txs.subscribe(None)?;
    let issuers = db.txs_by_issuer.subscribe(None)?;
    let recipients = db.txs_by_recipient.subscribe(None)?;
    let utxos = db.utxos_by_script.subscribe(None)?;

    write_tx(block(2), 2000, &mut db, TX1, tx1())?;
    assert_eq!(
        db.txs.try_recv(txs).map(|e| e.to_vec()),
        Some(vec![Event::Upsert {
            key: TX1,
            value: TxDbV2 { tx: tx1(), written_block: block(2), written_time: 2000 }
        }])
    );
    assert_eq!(
        db.txs_by_issuer.try_recv(issuers).map(|e| e.to_vec()),
        Some(vec![Event::Upsert { key: BOB, value: set_of(&[TX1]) }])
    );
    assert_eq!(
        db.txs_by_recipient.try_recv(recipients).map(|e| e.to_vec()),
        Some(vec![Event::Upsert { key: CAROL, value: set_of(&[TX1]) }])
    );
    assert_eq!(
        db.utxos_by_script.try_recv(utxos).map(|e| e.to_vec()),
        Some(vec![
            Event::Remove { key: utxo_key(BOB_SCRIPT, 1000, TX0, 1) },
            Event::Upsert { key: utxo_key(CAROL_SCRIPT, 2000, TX1, 0), value: amount(40) },
        ])
    );
    assert!(db.txs.try_recv(txs).is_none());

    // undoing it tells of the changes the other way round
    assert_eq!(revert_tx(&mut db, &TX1)?, Some(tx1()));
    assert_eq!(
        db.txs.try_recv(txs).map(|e| e.to_vec()),
        Some(vec![Event::Remove { key: TX1 }])
    );
    assert_eq!(
        db.txs_by_issuer.try_recv(issuers).map(|e| e.to_vec()),
        Some(vec![Event::Remove { key: BOB }])
    );
    assert_eq!(
        db.txs_by_recipient.try_recv(recipients).map(|e| e.to_vec()),
        Some(vec![Event::Remove { key: CAROL }])
    );
    assert_eq!(
        db.utxos_by_script.try_recv(utxos).map(|e| e.to_vec()),
        Some(vec![
            Event::Remove { key: utxo_key(CAROL_SCRIPT, 2000, TX1, 0) },
            Event::Upsert { key: utxo_key(BOB_SCRIPT, 1000, TX0, 1), value: amount(40) },
        ])
    );

    // nothing is stored under that digest: nobody is told
    assert_eq!(revert_tx(&mut db, &TX1)?, None);
    assert!(db.txs.try_recv(txs).is_none());
    assert!(db.txs_by_issuer.try_recv(issuers).is_none());
    assert!(db.txs_by_recipient.try_recv(recipients).is_none());
    assert!(db.utxos_by_script.try_recv(utxos).is_none());
    Ok(())
}

#[test]
fn remove_tx_tells_of_one_removal() -> KvResult<()> {
    let mut db = new_db();
    write_tx(block(1), 1000, &mut db, TX0, tx0())?;
    let txs = db.txs.subscribe(None)?;
    let issuers = db.txs_by_issuer.subscribe(None)?;
    let recipients = db.txs_by_recipient.subscribe(None)?;
    let utxos = db.utxos_by_script.subscribe(None)?;
    let stored = db.txs.get(&TX0)?.expect("written");
    remove_tx(&mut db, &TX0, &stored)?;
    assert_eq!(
        db.txs.try_recv(txs).map(|e| e.to_vec()),
        Some(vec![Event::Remove { key: TX0 }])
    );
    assert_eq!(
        db.txs_by_issuer.try_recv(issuers).map(|e| e.to_vec()),
        Some(vec![Event::Remove { key: ALICE }])
    );
    assert_eq!(
        db.txs_by_recipient.try_recv(recipients).map(|e| e.to_vec()),
        Some(vec![Event::Remove { key: ALICE }, Event::Remove { key: BOB }])
    );
    assert!(db.utxos_by_script.try_recv(utxos).is_none());
    Ok(())
}

#[test]
fn remove_tx_takes_the_tx_out_of_the_indexes() -> KvResult<()> {
    let mut db = new_db();
    write_tx(block(1), 1000, &mut db, TX0, tx0())?;
    write_tx(block(2), 2000, &mut db, TX1, tx1())?;
    let stored = db.txs.get(&TX0)?.expect("written");
    remove_tx(&mut db, &TX0, &stored)?;
    assert_eq!(db.txs.get(&TX0)?, None);
    assert!(db.txs.get(&TX1)?.is_some());
    // a set that becomes empty is taken out of its index
    assert_eq!(db.txs_by_issuer.get(&ALICE)?, None);
    assert_eq!(db.txs_by_issuer.get(&BOB)?, Some(set_of(&[TX1])));
    assert_eq!(db.txs_by_recipient.get(&ALICE)?, None);
    assert_eq!(db.txs_by_recipient.get(&BOB)?, None);
    assert_eq!(db.txs_by_recipient.get(&CAROL)?, Some(set_of(&[TX1])));
    // the unspent outputs are not touched
    assert_eq!(unspent(&db, ALICE_SCRIPT, 1000, TX0, 0), Some(amount(60)));
    assert_eq!(db.utxos_by_script.count()?, 2);
    Ok(())
}

#[test]
fn a_missing_origin_is_reported_and_nothing_is_written() -> KvResult<()> {
    let mut db = new_db();
    let before = dump_all(&db);
    // the transaction that made the spent output was never written
    let r = write_tx(block(2), 2000, &mut db, TX1, tx1());
    assert_eq!(r, Err(missing("64", 1)));
    assert_eq!(dump_all(&db), before);

    // the origin is there, but it has no such output
    write_tx(block(1), 1000, &mut db, TX0, tx0())?;
    let before = dump_all(&db);
    let mut bad = tx1();
    bad.inputs[0].id = SourceIdV10::Utxo(UtxoIdV10 { tx_hash: TX0, output_index: 2 });
    let r = write_tx(block(2), 2000, &mut db, TX1, bad);
    assert_eq!(r, Err(missing("64", 2)));
    assert_eq!(dump_all(&db), before);
    Ok(())
}

#[test]
fn a_damaged_index_entry_is_reported_and_nothing_is_written() -> KvResult<()> {
    let mut alice_index = Mem::new();
    kv_typed::backend::Backend::put(&mut alice_index, ALICE.to_vec(), vec![1, 2, 3])
        .expect("memory");
    let mut db = GvaV1Db::new(Mem::new(), alice_index, Mem::new(), Mem::new());
    assert!(matches!(db.txs_by_issuer.get(&ALICE), Err(KvError::DeserError(_))));
    let r = write_tx(block(1), 1000, &mut db, TX0, tx0());
    assert!(matches!(r, Err(KvError::DeserError(_))));
    assert_eq!(db.txs.count()?, 0);
    assert_eq!(db.txs_by_recipient.count()?, 0);
    assert_eq!(db.utxos_by_script.count()?, 0);
    Ok(())
}

#[test]
fn the_same_key_twice_is_indexed_once() -> KvResult<()> {
    let mut db = new_db();
    let mut doc = tx0();
    doc.issuers = vec![ALICE, ALICE];
    doc.outputs = vec![
        TransactionOutputV10 { amount: amount(60), script: ALICE_SCRIPT },
        TransactionOutputV10 { amount: amount(40), script: ALICE_SCRIPT },
    ];
    write_tx(block(1), 1000, &mut db, TX0, doc)?;
    assert_eq!(db.txs_by_issuer.get(&ALICE)?, Some(set_of(&[TX0])));
    // each output stands under its own name
    assert_eq!(unspent(&db, ALICE_SCRIPT, 1000, TX0, 0), Some(amount(60)));
    assert_eq!(unspent(&db, ALICE_SCRIPT, 1000, TX0, 1), Some(amount(40)));
    assert_eq!(db.utxos_by_script.count()?, 2);
    Ok(())
}

#[test]
fn current_ud() {
    let ud = SourceAmount { amount: 1000, base: 2 };
    assert_eq!(exec_req_current_ud(Some(ud)), Ok(BcaRespTypeV0::CurrentUd(ud)));
    assert_eq!(
        exec_req_current_ud(None),
        Err(ExecReqTypeError("no blockchain".to_owned()))
    );
}

#[test]
fn the_ledger_names_its_collections() {
    assert_eq!(
        GvaV1Db::<Mem>::list_collections(),
        vec![
            ("txs_by_issuer", "PublicKey", "HashBTSetV2"),
            ("txs_by_recipient", "PublicKey", "HashBTSetV2"),
            ("utxos_by_script", "UtxoKeyV1", "SourceAmount"),
            ("txs", "Hash", "TxDbV2"),
        ]
    );
}

#[test]
fn a_missing_origin_is_worded_as_the_protocol_shows_an_output() {
    let mut digest = [0u8; 32];
    for (at, byte) in digest.iter_mut().enumerate() {
        *byte = (at * 9 + 3) as u8;
    }
    let shown = dubp::wallet::prelude::UtxoIdV10 {
        tx_hash: dubp::crypto::hashs::Hash(digest),
        output_index: 307,
    };
    assert_eq!(
        kv_typed::utxos::missing_origin(&UtxoIdV10 { tx_hash: digest, output_index: 307 }),
        KvError::DbCorrupted(format!("Not found origin tx of uxto {}", shown))
    );
    assert_eq!(
        kv_typed::codec::show::hex_of(&digest),
        dubp::crypto::hashs::Hash(digest).to_hex()
    );
}
