use kv_typed::codec::frame::{push_frame, read_frames};
use kv_typed::codec::show::{corrupted, debug_bytes, decimal_of, hex_of};
use kv_typed::codec::{round_trip, Codec};
use kv_typed::error::{KvError, StringErr};
use kv_typed::keys::all::AllKeyV1;
use kv_typed::keys::uid::UidKeyV1;
use kv_typed::lex::{compare_bytes, Order};
use kv_typed::values::hash_set::HashBTSetV2;
use kv_typed::values::peer_card::PeerCardDbV1;
use kv_typed::values::tx_db::{
    Blockstamp, SourceAmount, SourceIdV10, TransactionDocumentV10, TransactionInputV10,
    TransactionOutputV10, TxDbV2, UtxoIdV10,
};
use kv_typed::values::txs::BlockTxsDbV2;
use kv_typed::utxos::missing_origin;
use kv_typed::values::utxo::UtxoKeyV1;
use kv_typed::values::wallet_db::WalletDbV1;

#[test]
fn integers_are_big_endian() {
    assert_eq!(Codec::as_bytes(&0x0102_0304_0506_0708u64), vec![1, 2, 3, 4, 5, 6, 7, 8]);
    assert_eq!(Codec::as_bytes(&0x0a0b_0c0du32), vec![10, 11, 12, 13]);
    assert_eq!(Codec::as_bytes(&258usize), vec![0, 0, 0, 0, 0, 0, 1, 2]);
    assert_eq!(u64::from_bytes(&[0, 0, 0, 0, 0, 0, 1, 0]), Ok(256));
    assert_eq!(u32::from_bytes(&[0xff, 0xff, 0xff, 0xfe]), Ok(u32::MAX - 1));
    assert_eq!(
        u64::from_bytes(&[1, 2, 3]),
        Err(StringErr("an 8-byte number was expected: [1, 2, 3]".to_owned()))
    );
    assert!(u32::from_bytes(&[1, 2, 3, 4, 5]).is_err());
}

#[test]
fn signed_integers_keep_their_order() {
    assert_eq!(Codec::as_bytes(&0i32), vec![0x80, 0, 0, 0]);
    assert_eq!(Codec::as_bytes(&-1i32), vec![0x7f, 0xff, 0xff, 0xff]);
    assert_eq!(Codec::as_bytes(&i32::MIN), vec![0, 0, 0, 0]);
    assert_eq!(Codec::as_bytes(&i32::MAX), vec![0xff, 0xff, 0xff, 0xff]);
    assert_eq!(Codec::as_bytes(&-2i64), vec![0x7f, 0xff, 0xff, 0xff, 0xff, 0xff, 0xff, 0xfe]);
    for x in [i32::MIN, -5, -1, 0, 1, 77, i32::MAX] {
        assert_eq!(round_trip(&x), Ok(x));
    }
    for x in [i64::MIN, -5, -1, 0, 1, 77, i64::MAX] {
        assert_eq!(round_trip(&x), Ok(x));
    }
    let ordered = [i32::MIN, -300, -1, 0, 1, 255, 256, i32::MAX];
    for pair in ordered.windows(2) {
        assert_eq!(
            compare_bytes(&Codec::as_bytes(&pair[0]), &Codec::as_bytes(&pair[1])),
            Order::Less
        );
    }
}

#[test]
fn byte_strings_compare_lexicographically() {
    assert_eq!(compare_bytes(b"", b""), Order::Equal);
    assert_eq!(compare_bytes(b"", b"a"), Order::Less);
    assert_eq!(compare_bytes(b"a", b""), Order::Greater);
    assert_eq!(compare_bytes(b"ab", b"abc"), Order::Less);
    assert_eq!(compare_bytes(b"abd", b"abc"), Order::Greater);
    assert_eq!(compare_bytes(b"b", b"abc"), Order::Greater);
    assert_eq!(compare_bytes(&[0xff], &[0x00, 0xff]), Order::Greater);
    assert_eq!(compare_bytes(b"titi", b"titi"), Order::Equal);
}

#[test]
fn text_is_utf8() {
    let s = "héllo wörld ✓".to_owned();
    assert_eq!(Codec::as_bytes(&s), s.clone().into_bytes());
    assert_eq!(round_trip(&s), Ok(s));
    assert_eq!(String::from_bytes(b"plain"), Ok("plain".to_owned()));
    assert!(String::from_bytes(&[0xc3, 0x28]).is_err());
    assert_eq!(
        String::from_bytes(&[0x80]),
        Err(StringErr(
            "invalid utf-8 sequence of 1 bytes from index 0: [128]".to_owned()
        ))
    );
    assert_eq!(<() as Codec>::from_bytes(&[]), Ok(()));
    assert!(<() as Codec>::from_bytes(&[0]).is_err());
    assert_eq!(round_trip(&vec![1u8, 2, 3]), Ok(vec![1u8, 2, 3]));
}

#[test]
fn frames_carry_their_length() {
    let mut out = vec![9u8];
    push_frame(&mut out, b"ab");
    push_frame(&mut out, b"");
    assert_eq!(
        out,
        vec![9, 0, 0, 0, 0, 0, 0, 0, 2, b'a', b'b', 0, 0, 0, 0, 0, 0, 0, 0]
    );
    assert_eq!(read_frames(&out[1..]), Some(vec![b"ab".to_vec(), vec![]]));
    assert_eq!(read_frames(&[]), Some(vec![]));
    // a length that runs past the end, and a cut-off length
    assert_eq!(read_frames(&[0, 0, 0, 0, 0, 0, 0, 3, 1, 2]), None);
    assert_eq!(read_frames(&[0, 0, 0]), None);
    assert_eq!(read_frames(&[0xff; 8]), None);
}

#[test]
fn all_key() {
    assert_eq!(Codec::as_bytes(&AllKeyV1), b"ALL".to_vec());
    assert_eq!(AllKeyV1::from_bytes(b"ALL"), Ok(AllKeyV1));
    assert_eq!(round_trip(&AllKeyV1), Ok(AllKeyV1));
    assert_eq!(
        AllKeyV1::from_bytes(b"all"),
        Err(StringErr(
            "Invalid key: expected '[65, 76, 76]', found '[97, 108, 108]'".to_owned()
        ))
    );
    assert_eq!(
        AllKeyV1::from_bytes(b""),
        Err(StringErr("Invalid key: expected '[65, 76, 76]', found '[]'".to_owned()))
    );
    assert!(AllKeyV1::from_bytes(b"ALLL").is_err());
    assert_eq!(AllKeyV1::from_explorer_str("ALL"), Ok(AllKeyV1));
    assert!(AllKeyV1::from_explorer_str("AL").is_err());
    assert_eq!(AllKeyV1.to_explorer_string().ok(), Some("ALL".to_owned()));
}

#[test]
fn uid_key() {
    let k = UidKeyV1::from_str("titi").expect("short name");
    assert_eq!(Codec::as_bytes(&k), b"titi".to_vec());
    assert_eq!(UidKeyV1::from_bytes(b"titi"), Ok(k));
    assert_eq!(round_trip(&k), Ok(k));
    assert_eq!(k.to_explorer_string().ok(), Some("titi".to_owned()));
    assert_eq!(UidKeyV1::from_explorer_str("titi"), Ok(k));

    let longest = "é".repeat(50);
    let key = UidKeyV1::from_str(&longest).expect("100 bytes");
    assert_eq!(Codec::as_bytes(&key).len(), 100);
    assert_eq!(round_trip(&key), Ok(key));

    let too_long = "a".repeat(101);
    assert!(UidKeyV1::from_str(&too_long).is_err());
    assert_eq!(
        UidKeyV1::from_bytes(too_long.as_bytes()),
        Err(StringErr(format!(
            "insufficient capacity: {:?}",
            too_long.as_bytes()
        )))
    );
    assert!(UidKeyV1::from_bytes(&[0xff, 0xfe]).is_err());
    assert_ne!(UidKeyV1::from_bytes(b"titu"), Ok(k));
}

#[test]
fn error_messages() {
    assert_eq!(KvError::BackendError("io".to_owned()).message(), "Backend error: io");
    assert_eq!(KvError::Custom("mine".to_owned()).message(), "mine");
    assert_eq!(KvError::DbCorrupted("x".to_owned()).message(), "DB corrupted:x");
    assert_eq!(KvError::DeserError("y".to_owned()).message(), "DeserError: y");
    assert_eq!(
        KvError::FailToCreateDbFolder("z".to_owned()).message(),
        "FailToCreateDbFolder: z"
    );
    assert_eq!(KvError::FailToSubscribe.message(), "FailToSubscribe");
    assert_eq!(StringErr("plain".to_owned()).message(), "plain");
}

fn amount(units: i64) -> SourceAmount {
    SourceAmount { amount: units, base: 1 }
}

fn sample_doc() -> TransactionDocumentV10 {
    TransactionDocumentV10 {
        issuers: vec![[1u8; 32], [2u8; 32]],
        recipients: vec![[3u8; 32]],
        inputs: vec![
            TransactionInputV10 {
                amount: amount(10),
                id: SourceIdV10::Ud { issuer: [1u8; 32], block_number: 7 },
            },
            TransactionInputV10 {
                amount: amount(5),
                id: SourceIdV10::Utxo(UtxoIdV10 { tx_hash: [9u8; 32], output_index: 2 }),
            },
        ],
        outputs: vec![
            TransactionOutputV10 { amount: amount(12), script: [4u8; 32] },
            TransactionOutputV10 { amount: amount(3), script: [5u8; 32] },
        ],
    }
}

#[test]
fn ledger_values_round_trip() {
    let doc = sample_doc();
    assert_eq!(round_trip(&doc), Ok(doc.clone()));
    let stored = TxDbV2 {
        tx: doc.clone(),
        written_block: Blockstamp { number: 3, hash: [8u8; 32] },
        written_time: -42,
    };
    assert_eq!(round_trip(&stored), Ok(stored.clone()));
    let bytes = Codec::as_bytes(&stored);
    assert!(TxDbV2::from_bytes(&bytes[..bytes.len() - 1]).is_err());
    assert!(TxDbV2::from_bytes(&[]).is_err());
    assert!(TransactionDocumentV10::from_bytes(&bytes).is_err());

    let id = UtxoIdV10 { tx_hash: [7u8; 32], output_index: 258 };
    let mut expected = vec![0, 0, 0, 0, 0, 0, 0, 32];
    expected.extend_from_slice(&[7u8; 32]);
    expected.extend_from_slice(&[0, 0, 0, 0, 0, 0, 0, 8]);
    expected.extend_from_slice(&[0, 0, 0, 0, 0, 0, 1, 2]);
    assert_eq!(Codec::as_bytes(&id), expected);
    assert_eq!(round_trip(&id), Ok(id));

    let block = BlockTxsDbV2(vec![doc.clone(), TransactionDocumentV10 {
        issuers: vec![],
        recipients: vec![],
        inputs: vec![],
        outputs: vec![],
    }]);
    assert_eq!(round_trip(&block), Ok(block.clone()));
    assert_eq!(round_trip(&BlockTxsDbV2::default()), Ok(BlockTxsDbV2::default()));
    let mut expected = 2u64.to_be_bytes().to_vec();
    push_frame(&mut expected, &Codec::as_bytes(&doc));
    push_frame(&mut expected, &[0u8; 32]);
    assert_eq!(Codec::as_bytes(&block), expected);

    // the empty block is eight zero bytes; no bytes are no block
    assert_eq!(Codec::as_bytes(&BlockTxsDbV2::default()), vec![0u8; 8]);
    assert_eq!(BlockTxsDbV2::from_bytes(&[0u8; 8]), Ok(BlockTxsDbV2::default()));
    assert_eq!(
        BlockTxsDbV2::from_bytes(&[]),
        Err(StringErr("damaged block of transactions: []".to_owned()))
    );
    assert_eq!(
        BlockTxsDbV2::from_bytes(&[0, 0, 0]),
        Err(StringErr("damaged block of transactions: [0, 0, 0]".to_owned()))
    );
    expected[7] = 1;
    assert!(BlockTxsDbV2::from_bytes(&expected).is_err());
    assert!(BlockTxsDbV2::from_bytes(&expected[..expected.len() - 1]).is_err());

    let key = UtxoKeyV1 { script: [6u8; 32], written_time: -1, id };
    let mut expected = vec![6u8; 32];
    expected.extend_from_slice(&[0x7f, 0xff, 0xff, 0xff, 0xff, 0xff, 0xff, 0xff]);
    expected.extend_from_slice(&id.tx_hash);
    expected.extend_from_slice(&(id.output_index as u64).to_be_bytes());
    assert_eq!(expected.len(), 80);
    assert_eq!(Codec::as_bytes(&key), expected);
    assert_eq!(round_trip(&key), Ok(key));
    assert!(UtxoKeyV1::from_bytes(&expected[1..]).is_err());

    let card = PeerCardDbV1 {
        version: 10,
        currency: "g1".to_owned(),
        pubkey: "pk".to_owned(),
        blockstamp: "0-E3B0".to_owned(),
        endpoints: vec!["GVA S domain.tld 443 gva".to_owned(), "BMAS x 443".to_owned()],
        status: "UP".to_owned(),
        signature: "sig".to_owned(),
    };
    assert_eq!(round_trip(&card), Ok(card));
    assert_eq!(round_trip(&PeerCardDbV1::default()), Ok(PeerCardDbV1::default()));
}

#[test]
fn set_of_digests() {
    let mut set = HashBTSetV2::new();
    assert!(set.insert([5u8; 32]));
    assert!(set.insert([1u8; 32]));
    assert!(set.insert([9u8; 32]));
    assert!(!set.insert([5u8; 32]));
    assert_eq!(set.len(), 3);
    assert_eq!(set.to_vec(), vec![[1u8; 32], [5u8; 32], [9u8; 32]]);
    assert!(set.contains(&[9u8; 32]));
    assert!(!set.contains(&[2u8; 32]));
    assert_eq!(round_trip(&set), Ok(set.clone()));

    // the number of the digests comes first, then one frame for each
    let counted = |hashes: &[[u8; 32]]| {
        let mut bytes = (hashes.len() as u64).to_be_bytes().to_vec();
        for h in hashes {
            push_frame(&mut bytes, h);
        }
        bytes
    };
    let bytes = counted(&[[1u8; 32], [5u8; 32], [9u8; 32]]);
    assert_eq!(bytes.len(), 8 + 3 * 40);
    assert_eq!(Codec::as_bytes(&set), bytes);
    assert_eq!(HashBTSetV2::from_bytes(&bytes), Ok(set.clone()));
    assert!(HashBTSetV2::from_bytes(&counted(&[[9u8; 32], [1u8; 32]])).is_err());
    assert!(HashBTSetV2::from_bytes(&counted(&[[5u8; 32], [5u8; 32]])).is_err());
    let mut short = 1u64.to_be_bytes().to_vec();
    push_frame(&mut short, &[5u8; 31]);
    assert!(HashBTSetV2::from_bytes(&short).is_err());

    // a number that is not the number of the frames
    let mut miscounted = counted(&[[1u8; 32], [5u8; 32]]);
    miscounted[7] = 3;
    assert!(HashBTSetV2::from_bytes(&miscounted).is_err());
    // the frames alone, without their number
    assert!(HashBTSetV2::from_bytes(&bytes[8..]).is_err());

    // the empty set is eight zero bytes, and no bytes are no set
    assert_eq!(Codec::as_bytes(&HashBTSetV2::new()), vec![0u8; 8]);
    assert_eq!(HashBTSetV2::from_bytes(&[0u8; 8]), Ok(HashBTSetV2::new()));
    assert_eq!(
        HashBTSetV2::from_bytes(&[]),
        Err(StringErr("damaged set of digests: []".to_owned()))
    );
    assert!(HashBTSetV2::from_bytes(&[0u8; 7]).is_err());

    assert!(set.remove(&[5u8; 32]));
    assert!(!set.remove(&[5u8; 32]));
    assert_eq!(set.to_vec(), vec![[1u8; 32], [9u8; 32]]);
    assert_eq!(round_trip(&HashBTSetV2::new()), Ok(HashBTSetV2::new()));
}

#[test]
fn wallet_text() {
    assert_eq!(
        WalletDbV1::stored_text(br#"{"conditions":"SIG(x)","balance":5}"#),
        Ok(r#"{"conditions":"SIG(x)","balance":5}"#.to_owned())
    );
    assert!(WalletDbV1::stored_text(&[0xff]).is_err());
}

#[test]
fn amounts_are_two_numbers() {
    let a = SourceAmount { amount: 1, base: -1 };
    assert_eq!(
        Codec::as_bytes(&a),
        vec![0x80, 0, 0, 0, 0, 0, 0, 1, 0x7f, 0xff, 0xff, 0xff, 0xff, 0xff, 0xff, 0xff]
    );
    assert_eq!(round_trip(&a), Ok(a));
    assert!(SourceAmount::from_bytes(&[0; 15]).is_err());
}

#[test]
fn bytes_are_shown_as_decimal_numbers() {
    for bytes in [
        vec![],
        vec![0u8],
        vec![9],
        vec![10],
        vec![99],
        vec![100],
        vec![101, 110, 200, 255],
        (0u8..=255).collect::<Vec<u8>>(),
    ] {
        assert_eq!(debug_bytes(&bytes), format!("{:?}", bytes));
    }
    assert_eq!(
        corrupted("too short", &[1, 20, 255]),
        StringErr("too short: [1, 20, 255]".to_owned())
    );
}

#[test]
fn digests_are_shown_in_upper_case_hex_and_positions_in_decimal() {
    assert_eq!(hex_of(&[]), "");
    assert_eq!(hex_of(&[0x00, 0x0a, 0xff, 0x10, 0x9c]), "000AFF109C");
    assert_eq!(hex_of(&[0xab; 32]), "AB".repeat(32));
    assert_eq!(decimal_of(0), "0");
    assert_eq!(decimal_of(7), "7");
    assert_eq!(decimal_of(10), "10");
    assert_eq!(decimal_of(4096), "4096");
    assert_eq!(decimal_of(usize::MAX), usize::MAX.to_string());

    let id = UtxoIdV10 { tx_hash: [0x1f; 32], output_index: 12 };
    assert_eq!(
        missing_origin(&id),
        KvError::DbCorrupted(format!("Not found origin tx of uxto {}:12", "1F".repeat(32)))
    );
}

#[test]
fn unspent_outputs_are_ordered_by_script_time_and_name() {
    let key = |script: u8, written_time: i64, hash: u8, output_index: usize| UtxoKeyV1 {
        script: [script; 32],
        written_time,
        id: UtxoIdV10 { tx_hash: [hash; 32], output_index },
    };
    let ascending = [
        key(1, -5, 9, 9),
        key(1, 0, 0, 3),
        key(1, 0, 1, 0),
        key(1, 0, 1, 2),
        key(1, 7, 0, 0),
        key(2, -9, 0, 0),
    ];
    for pair in ascending.windows(2) {
        assert!(Codec::as_bytes(&pair[0]) < Codec::as_bytes(&pair[1]));
    }
    assert_eq!(round_trip(&SourceAmount { amount: 40, base: 1 }), Ok(SourceAmount { amount: 40, base: 1 }));
}
