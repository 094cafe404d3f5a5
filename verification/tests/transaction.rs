use kv_typed::backend::memory::Mem;
use kv_typed::collection::{Collection, KeyBound};
use kv_typed::error::{backend_error, KvError, KvResult, TransactionError};
use kv_typed::event::Event;
use kv_typed::transaction::TxColRw;

fn keys(col: &Collection<Mem, u32, String>) -> Vec<u32> {
    col.iter(&KeyBound::Unbounded, &KeyBound::Unbounded)
        .expect("memory")
        .keys()
        .collect()
        .expect("sound")
}

#[test]
fn write_transaction_commits_all_at_once() -> KvResult<()> {
    let mut col: Collection<Mem, u32, String> = Collection::new(Mem::new());
    col.upsert(1, "a".to_owned())?;
    let listener = col.subscribe(None)?;

    let r: Result<u32, TransactionError<&str, String>> = col.write(|mut tx| {
        tx.upsert(2, "b".to_owned());
        tx.remove(1);
        tx.upsert(3, "c".to_owned());
        match tx.get(&2) {
            Ok(Some(staged)) if staged == "b" => {}
            _ => return Err(TransactionError::Abort("the staged value is not read back")),
        }
        match tx.get(&1) {
            Ok(None) => {}
            _ => return Err(TransactionError::Abort("the staged removal is not read back")),
        }
        Ok((7, tx.into_batch()))
    });
    assert!(matches!(r, Ok(7)));
    assert_eq!(keys(&col), vec![2, 3]);
    let events = col.try_recv(listener).expect("one delivery");
    assert_eq!(
        events.as_ref(),
        &vec![
            Event::Upsert { key: 2, value: "b".to_owned() },
            Event::Remove { key: 1 },
            Event::Upsert { key: 3, value: "c".to_owned() },
        ]
    );
    assert!(col.try_recv(listener).is_none());
    Ok(())
}

#[test]
fn write_transaction_that_gives_up_changes_nothing() -> KvResult<()> {
    let mut col: Collection<Mem, u32, String> = Collection::new(Mem::new());
    col.upsert(1, "a".to_owned())?;
    let listener = col.subscribe(None)?;

    let r: Result<(), TransactionError<&str, String>> = col.write(|mut tx| {
        tx.clear();
        tx.upsert(9, "z".to_owned());
        Err(TransactionError::Abort("changed my mind"))
    });
    assert!(matches!(r, Err(TransactionError::Abort("changed my mind"))));
    assert_eq!(keys(&col), vec![1]);
    assert!(col.try_recv(listener).is_none());

    let r: Result<(), TransactionError<&str, String>> = col.write(|tx| {
        match tx.get(&1) {
            Ok(_) => Err(TransactionError::KvError(KvError::Custom("stop".to_owned()))),
            Err(e) => Err(TransactionError::KvError(e)),
        }
    });
    assert!(matches!(r, Err(TransactionError::KvError(KvError::Custom(_)))));
    assert_eq!(keys(&col), vec![1]);
    Ok(())
}

#[test]
fn a_reader_sees_the_state_from_before_the_transaction() -> KvResult<()> {
    let mut col: Collection<Mem, u32, String> = Collection::new(Mem::new());
    col.upsert(4, "four".to_owned())?;
    let mut tx = TxColRw::new(&col);
    tx.upsert(42, "forty-two".to_owned());
    tx.remove(4);
    // while the changes are staged, the collection is read as it was
    assert_eq!(keys(&col), vec![4]);
    assert_eq!(col.get(&42)?, None);
    assert_eq!(col.count()?, 1);
    // and the handle reads it as it will be
    assert_eq!(tx.get(&42)?, Some("forty-two".to_owned()));
    assert_eq!(tx.get(&4)?, None);
    let batch = tx.into_batch();
    assert_eq!(keys(&col), vec![4]);
    col.write_batch(batch)?;
    assert_eq!(keys(&col), vec![42]);
    Ok(())
}

#[test]
fn sled_errors_become_backend_errors() {
    let e = KvError::from(sled::Error::Unsupported("no such thing".to_owned()));
    assert_eq!(e, KvError::BackendError("Unsupported: no such thing".to_owned()));
    assert_eq!(e.message(), "Backend error: Unsupported: no such thing");
}

#[test]
fn a_scan_is_not_reached_by_later_writes() -> KvResult<()> {
    let mut col: Collection<Mem, u32, String> = Collection::new(Mem::new());
    col.upsert(1, "a".to_owned())?;
    col.upsert(2, "b".to_owned())?;
    // the scan is opened before the writes
    let mut scan = col.iter(&KeyBound::Unbounded, &KeyBound::Unbounded)?;
    col.upsert(3, "c".to_owned())?;
    col.remove(1)?;
    col.upsert(2, "changed".to_owned())?;
    assert_eq!(scan.next_res()?, Some((1, "a".to_owned())));
    assert_eq!(scan.next_res()?, Some((2, "b".to_owned())));
    assert_eq!(scan.next_res()?, None);
    // a scan that is opened now sees them
    assert_eq!(keys(&col), vec![2, 3]);
    Ok(())
}

#[test]
fn a_scan_inside_a_transaction_sees_the_staged_changes() -> KvResult<()> {
    let mut col: Collection<Mem, u32, String> = Collection::new(Mem::new());
    for (k, v) in [(1, "a"), (3, "c"), (5, "e"), (7, "g")] {
        col.upsert(k, v.to_owned())?;
    }
    let mut tx = TxColRw::new(&col);
    tx.upsert(4, "d".to_owned());
    tx.remove(5);
    tx.upsert(3, "C".to_owned());
    tx.upsert(9, "i".to_owned());

    let all = tx.iter(&KeyBound::Unbounded, &KeyBound::Unbounded)?.collect()?;
    assert_eq!(
        all,
        vec![
            (1, "a".to_owned()),
            (3, "C".to_owned()),
            (4, "d".to_owned()),
            (7, "g".to_owned()),
            (9, "i".to_owned()),
        ]
    );
    // a range: a staged key outside it is not seen, one inside it is
    let some = tx.iter(&KeyBound::Included(3), &KeyBound::Excluded(7))?.keys().collect()?;
    assert_eq!(some, vec![3, 4]);
    let back = tx.iter(&KeyBound::Excluded(3), &KeyBound::Unbounded)?.reverse().keys().collect()?;
    assert_eq!(back, vec![9, 7, 4]);

    // a walk that was opened is not reached by what is staged later
    let mut opened = tx.iter(&KeyBound::Unbounded, &KeyBound::Unbounded)?.keys();
    tx.clear();
    tx.upsert(2, "b".to_owned());
    assert_eq!(opened.next_res()?, Some(1));
    assert_eq!(opened.collect()?, vec![3, 4, 7, 9]);
    assert_eq!(
        tx.iter(&KeyBound::Unbounded, &KeyBound::Unbounded)?.collect()?,
        vec![(2, "b".to_owned())]
    );

    // the collection itself keeps its state until the batch is written
    assert_eq!(keys(&col), vec![1, 3, 5, 7]);
    Ok(())
}

#[test]
fn the_failure_of_an_engine_is_wrapped_as_it_is() {
    assert_eq!(
        backend_error("disk on fire".to_owned()),
        KvError::BackendError("disk on fire".to_owned())
    );
    assert_eq!(backend_error(String::new()), KvError::BackendError(String::new()));
    for e in [
        sled::Error::Unsupported(String::new()),
        sled::Error::ReportableBug(String::new()),
        sled::Error::CollectionNotFound(sled::IVec::from(&[][..])),
    ] {
        match KvError::from(e) {
            KvError::BackendError(message) => assert!(!message.is_empty()),
            other => panic!("{:?}", other),
        }
    }
}
