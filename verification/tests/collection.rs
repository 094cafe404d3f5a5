use kv_typed::backend::memory::Mem;
use kv_typed::batch::BatchGet;
use kv_typed::collection::{Collection, KeyBound};
use kv_typed::error::{KvError, KvResult};
use kv_typed::event::Event;
use kv_typed::keys::uid::UidKeyV1;
use kv_typed::transaction::TxColRw;
use kv_typed::values::peer_card::PeerCardDbV1;

type PublicKey = [u8; 32];

const PUBKEY_TITI: PublicKey = [
    45, 4, 134, 236, 196, 222, 74, 197, 92, 172, 240, 202, 255, 12, 255, 113, 50, 23, 225, 122, 92,
    92, 101, 46, 59, 162, 206, 227, 108, 20, 94, 243,
];
const PUBKEY_TITU: PublicKey = [
    3, 25, 250, 152, 111, 87, 148, 209, 81, 89, 217, 178, 73, 211, 150, 122, 159, 49, 159, 166, 19,
    220, 150, 154, 32, 43, 90, 82, 208, 225, 187, 123,
];
const PUBKEY_TOTO: PublicKey = [
    106, 150, 186, 93, 98, 243, 44, 163, 216, 68, 94, 223, 52, 216, 36, 145, 170, 95, 194, 176,
    198, 212, 81, 201, 142, 143, 22, 36, 125, 111, 144, 243,
];

fn all<K>() -> KeyBound<K> {
    KeyBound::Unbounded
}

#[test]
fn test_macro_db() {
    assert_eq!(
        Event::<i32, String>::RemoveAll,
        Event::<i32, String>::RemoveAll
    );
}

#[test]
fn iter_test_mem() -> KvResult<()> {
    let mut uids: Collection<Mem, UidKeyV1, PublicKey> = Collection::new(Mem::new());

    let k1 = UidKeyV1::from_str("titi").expect("short name");
    let p1 = PUBKEY_TITI;
    let k2 = UidKeyV1::from_str("titu").expect("short name");
    let p2 = PUBKEY_TITU;
    let k3 = UidKeyV1::from_str("toto").expect("short name");
    let p3 = PUBKEY_TOTO;
    uids.upsert(k1, p1)?;
    uids.upsert(k2, p2)?;
    uids.upsert(k3, p3)?;

    {
        let mut values_iter_step_2 = uids.iter(&all(), &all())?.values().step_by(2);
        assert_eq!(Some(p1), values_iter_step_2.next_res()?);
        assert_eq!(Some(p3), values_iter_step_2.next_res()?);
        assert_eq!(None, values_iter_step_2.next_res()?);

        let mut entries_iter_step_2 = uids.iter(&all(), &all())?.step_by(2);
        assert_eq!(Some((k1, p1)), entries_iter_step_2.next_res()?);
        assert_eq!(Some((k3, p3)), entries_iter_step_2.next_res()?);
        assert_eq!(None, entries_iter_step_2.next_res()?);

        let mut entries_iter = uids.iter(&KeyBound::Included(k2), &all())?;
        assert_eq!(Some((k2, p2)), entries_iter.next_res()?);
        assert_eq!(Some((k3, p3)), entries_iter.next_res()?);
        assert_eq!(None, entries_iter.next_res()?);

        let mut entries_iter = uids.iter(&all(), &KeyBound::Included(k2))?;
        assert_eq!(Some((k1, p1)), entries_iter.next_res()?);
        assert_eq!(Some((k2, p2)), entries_iter.next_res()?);
        assert_eq!(None, entries_iter.next_res()?);

        let mut entries_iter_rev = uids.iter_rev(&KeyBound::Included(k2), &all())?;
        assert_eq!(Some((k3, p3)), entries_iter_rev.next_res()?);
        assert_eq!(Some((k2, p2)), entries_iter_rev.next_res()?);
        assert_eq!(None, entries_iter_rev.next_res()?);

        let mut entries_iter_rev = uids.iter_rev(&all(), &KeyBound::Included(k2))?;
        assert_eq!(Some((k2, p2)), entries_iter_rev.next_res()?);
        assert_eq!(Some((k1, p1)), entries_iter_rev.next_res()?);

        let mut keys_iter_rev = uids.iter_rev(&all(), &KeyBound::Included(k2))?.keys();
        assert_eq!(Some(k2), keys_iter_rev.next_res()?);
        assert_eq!(Some(k1), keys_iter_rev.next_res()?);
        assert_eq!(None, keys_iter_rev.next_res()?);
    }

    uids.remove(k3)?;

    let mut keys_iter = uids.iter(&all(), &all())?.keys();
    assert_eq!(Some(k1), keys_iter.next_res()?);
    assert_eq!(Some(k2), keys_iter.next_res()?);
    assert_eq!(None, keys_iter.next_res()?);

    Ok(())
}

#[test]
fn batch_test_mem() -> KvResult<()> {
    let mut main_blocks: Collection<Mem, u32, PeerCardDbV1> = Collection::new(Mem::new());

    let mut batch = main_blocks.new_batch();

    let subscriber = main_blocks.subscribe(None)?;

    // Empty db
    assert_eq!(main_blocks.get(&0)?, None);
    assert_eq!(main_blocks.get(&1)?, None);
    assert_eq!(main_blocks.iter(&all(), &all())?.keys().next_res()?, None);
    assert_eq!(main_blocks.iter(&all(), &all())?.values().next_res()?, None);
    assert!(main_blocks.try_recv(subscriber).is_none(), "should not receive event");

    // Insert b0 in batch
    let b0 = PeerCardDbV1::default();
    batch.upsert(0, b0.clone());

    // bo should written in batch
    assert_eq!(batch.get(&0), BatchGet::Updated(&b0));

    // bo should not written in db
    assert_eq!(main_blocks.get(&0)?, None);

    assert!(main_blocks.try_recv(subscriber).is_none(), "should not receive event");

    // Insert b1 in batch
    let b1 = PeerCardDbV1 {
        version: 1,
        ..Default::default()
    };
    batch.upsert(1, b1.clone());

    // Write batch in db
    main_blocks.write_batch(batch)?;

    // bo should written in db
    assert_eq!(main_blocks.get(&0)?.as_ref(), Some(&b0));
    let mut keys_iter = main_blocks.iter(&all(), &all())?.keys();
    assert_eq!(keys_iter.next_res()?, Some(0));
    assert_eq!(keys_iter.next_res()?, Some(1));
    assert_eq!(keys_iter.next_res()?, None);
    let mut values_iter = main_blocks.iter(&all(), &all())?.values();
    assert_eq!(values_iter.next_res()?.as_ref(), Some(&b0));
    assert_eq!(values_iter.next_res()?.as_ref(), Some(&b1));
    assert_eq!(values_iter.next_res()?, None);

    if let Some(events) = main_blocks.try_recv(subscriber) {
        assert_eq!(events.len(), 2);
        assert!(assert_eq_pairs(
            [&events[0], &events[1]],
            [
                &Event::Upsert { key: 0, value: b0 },
                &Event::Upsert { key: 1, value: b1 }
            ]
        ));
    } else {
        panic!("should receive event");
    }

    Ok(())
}

fn assert_eq_pairs<T: PartialEq>(a: [T; 2], b: [T; 2]) -> bool {
    (a[0] == b[0] && a[1] == b[1]) || (a[1] == b[0] && a[0] == b[1])
}

#[test]
fn write_read_delete_b0_mem() -> KvResult<()> {
    let mut main_blocks: Collection<Mem, u32, PeerCardDbV1> = Collection::new(Mem::new());
    let mut unrelated: Collection<Mem, u32, PeerCardDbV1> = Collection::new(Mem::new());

    let subscriber = main_blocks.subscribe(None)?;
    let bystander = unrelated.subscribe(None)?;

    // Empty db
    assert_eq!(main_blocks.get(&0)?, None);
    assert_eq!(main_blocks.get(&1)?, None);
    assert_eq!(main_blocks.iter(&all(), &all())?.keys().next_res()?, None);
    assert_eq!(main_blocks.iter(&all(), &all())?.values().next_res()?, None);
    assert!(main_blocks.try_recv(subscriber).is_none(), "should not receive event");

    // Insert b0
    let b0 = PeerCardDbV1::default();
    main_blocks.upsert(0, b0.clone())?;
    assert_eq!(main_blocks.get(&0)?.as_ref(), Some(&b0));
    assert_eq!(main_blocks.get(&1)?, None);
    let mut keys_iter = main_blocks.iter(&all(), &all())?.keys();
    assert_eq!(keys_iter.next_res()?, Some(0));
    assert_eq!(keys_iter.next_res()?, None);
    let mut values_iter = main_blocks.iter(&all(), &all())?.values();
    assert_eq!(values_iter.next_res()?, Some(b0.clone()));
    assert_eq!(values_iter.next_res()?, None);
    if let Some(events) = main_blocks.try_recv(subscriber) {
        assert_eq!(events.len(), 1);
        assert_eq!(&events[0], &Event::Upsert { key: 0, value: b0 });
    } else {
        panic!("should receive event");
    }
    assert!(main_blocks.try_recv(subscriber).is_none(), "exactly one delivery");
    assert!(unrelated.try_recv(bystander).is_none(), "no event for another collection");

    // Delete b0
    main_blocks.remove(0)?;
    assert_eq!(main_blocks.get(&0)?, None);
    assert_eq!(main_blocks.get(&1)?, None);
    assert_eq!(main_blocks.iter(&all(), &all())?.keys().next_res()?, None);
    assert_eq!(main_blocks.iter(&all(), &all())?.values().next_res()?, None);
    if let Some(events) = main_blocks.try_recv(subscriber) {
        assert_eq!(events.len(), 1);
        assert_eq!(&events[0], &Event::<u32, PeerCardDbV1>::Remove { key: 0 });
    } else {
        panic!("should receive event");
    }
    assert!(main_blocks.try_recv(subscriber).is_none(), "exactly one delivery");

    Ok(())
}

#[test]
fn test_db_mem() -> KvResult<()> {
    let mut col1: Collection<Mem, i32, String> = Collection::new(Mem::new());
    let mut col2: Collection<Mem, usize, ()> = Collection::new(Mem::new());
    let mut col3: Collection<Mem, u64, Vec<u8>> = Collection::new(Mem::new());

    let recv = col1.subscribe(None)?;

    col1.upsert(3, "toto".to_owned())?;

    let expected_events = vec![Event::Upsert {
        key: 3,
        value: "toto".to_owned(),
    }];
    if let Some(msg) = col1.try_recv(recv) {
        assert_eq!(msg.as_ref(), &expected_events)
    } else {
        panic!("must be receive event")
    }

    assert_eq!(col1.get(&3)?, Some("toto".to_owned()));

    assert_eq!(col2.get(&3)?, None);
    col2.upsert(3, ())?;
    assert_eq!(col2.get(&3)?, Some(()));

    col1.upsert(5, "tutu".to_owned())?;

    let mut iter = col1.iter(&all(), &all())?;
    assert_eq!(iter.next_res()?, Some((3, "toto".to_owned())));
    assert_eq!(iter.next_res()?, Some((5, "tutu".to_owned())));
    assert_eq!(iter.next_res()?, None);

    let mut iter = col1.iter(&all(), &all())?.values().reverse();
    assert_eq!(iter.next_res()?, Some("tutu".to_owned()));
    assert_eq!(iter.next_res()?, Some("toto".to_owned()));
    assert_eq!(iter.next_res()?, None);

    col1.upsert(7, "titi".to_owned())?;

    let mut iter = col1.iter(&all(), &all())?.values().reverse().step_by(2);
    assert_eq!(iter.next_res()?, Some("titi".to_owned()));
    assert_eq!(iter.next_res()?, Some("toto".to_owned()));
    assert_eq!(iter.next_res()?, None);

    col3.upsert(4, vec![1, 2, 3])?;
    assert_eq!(col3.get(&4)?, Some(vec![1, 2, 3]));

    // A write transaction stages its changes; the collection keeps its state until
    // the staged changes are written.
    let mut c3 = TxColRw::new(&col3);
    assert_eq!(c3.iter(&all(), &all())?.keys().collect()?, vec![4]);
    assert_eq!(c3.iter(&all(), &all())?.values().collect()?, vec![vec![1, 2, 3]]);
    assert_eq!(c3.get(&4)?, Some(vec![1, 2, 3]));
    c3.upsert(42, vec![5, 4, 6]);
    assert_eq!(c3.iter(&all(), &all())?.keys().collect()?, vec![4, 42]);
    assert_eq!(c3.iter(&all(), &all())?.reverse().keys().collect()?, vec![42, 4]);
    assert_eq!(c3.get(&42)?, Some(vec![5, 4, 6]));
    c3.upsert(8, vec![11, 12, 13]);
    c3.remove(4);
    assert_eq!(c3.iter(&all(), &all())?.keys().collect()?, vec![8, 42]);
    assert_eq!(c3.iter(&all(), &all())?.reverse().keys().collect()?, vec![42, 8]);
    assert_eq!(c3.get(&4)?, None);
    assert_eq!(c3.get(&8)?, Some(vec![11, 12, 13]));
    // The reader still sees the state from before the transaction
    assert_eq!(col3.iter(&all(), &all())?.keys().collect()?, vec![4]);
    assert_eq!(col3.get(&42)?, None);
    let batch = c3.into_batch();
    col3.write_batch(batch)?;
    assert_eq!(col3.iter(&all(), &all())?.keys().collect()?, vec![8, 42]);
    assert_eq!(
        col3.iter(&all(), &all())?.reverse().keys().collect()?,
        vec![42, 8]
    );
    assert_eq!(
        col3.iter(&all(), &all())?.values().collect()?,
        vec![vec![11, 12, 13], vec![5, 4, 6]]
    );

    // Test clear()
    let listener = col3.subscribe(None)?;
    col3.clear()?;
    assert_eq!(col3.count()?, 0);
    let events = col3.try_recv(listener).expect("one delivery");
    assert_eq!(events.as_ref(), &vec![Event::<u64, Vec<u8>>::RemoveAll]);
    assert!(col3.try_recv(listener).is_none());

    Ok(())
}

#[test]
fn negative_keys_come_first() -> KvResult<()> {
    let mut col: Collection<Mem, i32, String> = Collection::new(Mem::new());
    col.upsert(5, "five".to_owned())?;
    col.upsert(-7, "minus seven".to_owned())?;
    col.upsert(0, "zero".to_owned())?;
    col.upsert(i32::MIN, "least".to_owned())?;
    col.upsert(i32::MAX, "most".to_owned())?;
    assert_eq!(
        col.iter(&all(), &all())?.keys().collect()?,
        vec![i32::MIN, -7, 0, 5, i32::MAX]
    );
    assert_eq!(
        col.iter(&KeyBound::Excluded(-7), &KeyBound::Excluded(5))?.keys().collect()?,
        vec![0]
    );
    Ok(())
}

#[test]
fn empty_and_inverted_ranges_end_at_once() -> KvResult<()> {
    let mut col: Collection<Mem, u64, String> = Collection::new(Mem::new());
    for k in [10u64, 20, 30] {
        col.upsert(k, k.to_string())?;
    }
    assert_eq!(
        col.iter(&KeyBound::Included(21), &KeyBound::Included(29))?.next_res()?,
        None
    );
    assert_eq!(
        col.iter(&KeyBound::Included(30), &KeyBound::Included(10))?.next_res()?,
        None
    );
    assert_eq!(
        col.iter(&KeyBound::Excluded(20), &KeyBound::Excluded(20))?.next_res()?,
        None
    );
    assert_eq!(
        col.iter_rev(&KeyBound::Included(30), &KeyBound::Included(10))?.next_res()?,
        None
    );
    assert_eq!(
        col.iter(&KeyBound::Excluded(10), &KeyBound::Included(30))?.keys().collect()?,
        vec![20, 30]
    );
    Ok(())
}

#[test]
fn damaged_entry_is_reported_at_its_place() -> KvResult<()> {
    // A collection of byte strings is read as a collection of text: the second value
    // is not UTF-8.
    let mut raw: Collection<Mem, u32, Vec<u8>> = Collection::new(Mem::new());
    raw.upsert(1, b"one".to_vec())?;
    raw.upsert(2, vec![0xff, 0xfe])?;
    raw.upsert(3, b"three".to_vec())?;
    let mut backend = Mem::new();
    let mut it = raw.iter(&all(), &all())?;
    while let Some(entry) = it.next_res()? {
        let key_bytes = kv_typed::codec::Codec::as_bytes(&entry.0);
        kv_typed::backend::Backend::put(&mut backend, key_bytes, entry.1).expect("memory");
    }
    let text: Collection<Mem, u32, String> = Collection::new(backend);

    let mut values = text.iter(&all(), &all())?.values();
    assert_eq!(values.next().expect("first")?, "one".to_owned());
    assert!(matches!(values.next(), Some(Err(KvError::DeserError(_)))));
    assert_eq!(values.next().expect("third")?, "three".to_owned());
    assert!(values.next().is_none());

    assert_eq!(
        text.get(&2),
        Err(KvError::DeserError(
            "invalid utf-8 sequence of 1 bytes from index 0: [255, 254]".to_owned()
        ))
    );
    assert_eq!(text.get(&3)?, Some("three".to_owned()));
    assert!(matches!(
        text.iter(&all(), &all())?.values().collect(),
        Err(KvError::DeserError(_))
    ));
    Ok(())
}

#[test]
fn full_or_gone_subscribers_do_not_hold_up_writes() -> KvResult<()> {
    let mut col: Collection<Mem, u32, String> = Collection::new(Mem::new());
    let bounded = col.subscribe(Some(1))?;
    let gone = col.subscribe(None)?;
    let free = col.subscribe(None)?;
    col.unsubscribe(gone);

    col.upsert(1, "a".to_owned())?;
    col.upsert(2, "b".to_owned())?;
    col.remove(1)?;

    assert_eq!(col.get(&2)?, Some("b".to_owned()));
    // the bounded mailbox kept the first delivery only
    let first = col.try_recv(bounded).expect("one delivery");
    assert_eq!(first.as_ref(), &vec![Event::Upsert { key: 1, value: "a".to_owned() }]);
    assert!(col.try_recv(bounded).is_none());
    assert!(col.try_recv(gone).is_none());
    for expected in [
        Event::Upsert { key: 1, value: "a".to_owned() },
        Event::Upsert { key: 2, value: "b".to_owned() },
        Event::Remove { key: 1 },
    ] {
        assert_eq!(col.try_recv(free).expect("delivery").as_ref(), &vec![expected]);
    }
    assert!(col.try_recv(free).is_none());

    // a subscriber that comes later sees later events only
    let late = col.subscribe(None)?;
    assert!(col.try_recv(late).is_none());

    // a hub that was shut takes no subscriber
    col.shut_hub();
    assert!(matches!(col.subscribe(None), Err(KvError::FailToSubscribe)));
    Ok(())
}

#[test]
fn batch_get_follows_the_last_staged_change() {
    let col: Collection<Mem, u32, String> = Collection::new(Mem::new());
    let mut batch = col.new_batch();
    assert_eq!(batch.get(&1), BatchGet::Absent);
    batch.upsert(1, "a".to_owned());
    batch.upsert(1, "b".to_owned());
    assert_eq!(batch.get(&1), BatchGet::Updated(&"b".to_owned()));
    batch.remove(1);
    assert_eq!(batch.get(&1), BatchGet::Deleted);
    assert_eq!(batch.get(&2), BatchGet::Absent);
    batch.upsert(2, "c".to_owned());
    batch.clear();
    assert_eq!(batch.get(&2), BatchGet::Deleted);
    assert_eq!(batch.get(&3), BatchGet::Deleted);
    batch.upsert(3, "d".to_owned());
    assert_eq!(batch.get(&3), BatchGet::Updated(&"d".to_owned()));
    assert_eq!(batch.len(), 6);
}

#[test]
fn get_ref_lends_the_value() -> KvResult<()> {
    let mut col: Collection<Mem, u32, String> = Collection::new(Mem::new());
    col.upsert(3, "toto".to_owned())?;
    assert_eq!(col.get_ref(&3, |value| Ok(value.len()))?, Some(4));
    assert_eq!(col.get_ref(&4, |value| Ok(value.len()))?, None);
    let refused: KvResult<Option<usize>> =
        col.get_ref(&3, |_| Err(KvError::Custom("no".to_owned())));
    assert_eq!(refused, Err(KvError::Custom("no".to_owned())));
    Ok(())
}
