//! Write transactions: a handle that stages changes over a collection it
//! can only read, and shows the collection as it will be once they are
//! made.

use crate::backend::memory::{lemma_scan_as_map, map_of, Mem, MemIter};
use crate::backend::{
    apply_ops, is_scan, lemma_apply_agrees, lemma_scan_agrees, scan_of, Backend, BackendIter,
    RawMap,
};
use crate::batch::{lemma_staged_is_applied, raw_ops, Batch, BatchGet};
use crate::codec::{Codec, Key};
use crate::collection::{read_of, Collection, KeyBound};
use crate::error::{backend_error, KvError, KvResult, TransactionError, TransactionResult};
use crate::event::Event;
use crate::iter::KvIter;
use vstd::prelude::*;

verus! {

/// The staging handle of one collection inside a write transaction.
///
/// The handle borrows the collection for reading, so nothing it does can
/// change what is stored: a reader of the collection sees the state from
/// before the transaction until the staged changes are written.
pub struct TxColRw<'a, B: Backend, K: Key, V: Codec> {
    col: &'a Collection<B, K, V>,
    batch: Batch<K, V>,
}

impl<'a, B: Backend, K: Key, V: Codec> TxColRw<'a, B, K, V> {
    /// What the collection under the handle holds.
    pub closed spec fn base(&self) -> RawMap {
        self.col.raw()
    }

    /// The changes staged so far.
    pub closed spec fn staged(&self) -> Seq<Event<K, V>> {
        self.batch@
    }

    /// The engine under the collection never fails.
    pub closed spec fn reliable(&self) -> bool {
        self.col.reliable()
    }

    /// What the collection will hold once the staged changes are made.
    pub open spec fn pending(&self) -> RawMap {
        apply_ops(self.base(), raw_ops(self.staged()))
    }

    /// A handle over `col` that stages nothing.
    pub fn new(col: &'a Collection<B, K, V>) -> (tx: Self)
        ensures
            tx.base() == col.raw(),
            tx.reliable() == col.reliable(),
            tx.staged().len() == 0,
            tx.pending() == col.raw(),
    {
        TxColRw { col, batch: Batch::new() }
    }

    /// The value under `key` as the staged changes leave it: what the
    /// last of them that touches the key says, and what is stored where
    /// none does.
    pub fn get(&self, key: &K) -> (r: KvResult<Option<V>>)
        ensures
            match r {
                Err(KvError::BackendError(_)) => !self.reliable(),
                _ => read_of(self.pending(), K::encoded(key@), r),
            },
    {
        proof {
            lemma_staged_is_applied(self.base(), self.staged(), K::encoded(key@));
        }
        match self.batch.get(key) {
            BatchGet::Updated(value) => {
                let bytes = value.as_bytes();
                proof {
                    V::lemma_round_trip(value@);
                }
                match V::from_bytes(bytes.as_slice()) {
                    Ok(copy) => Ok(Some(copy)),
                    Err(e) => Err(KvError::DeserError(e.0)),
                }
            },
            BatchGet::Deleted => Ok(None),
            BatchGet::Absent => self.col.get(key),
        }
    }

    /// A walk in ascending key order over the entries, as the staged
    /// changes leave them, whose keys lie between `lo` and `hi`: what is
    /// stored there, with each staged change made to it. The walk goes
    /// over a copy, so that it cannot fail and nothing staged later
    /// reaches it.
    pub fn iter(&self, lo: &KeyBound<K>, hi: &KeyBound<K>) -> (r: KvResult<KvIter<MemIter, K, V>>)
        ensures
            match r {
                Ok(it) => {
                    &&& is_scan(it.remaining(), self.pending(), lo.raw(), hi.raw())
                    &&& it.remaining() == scan_of(self.pending(), lo.raw(), hi.raw())
                    &&& it.reliable()
                },
                Err(e) => e is BackendError && !self.reliable(),
            },
    {
        let raw_lo = lo.to_raw();
        let raw_hi = hi.to_raw();
        let stored = match self.col.raw_scan(&raw_lo, &raw_hi) {
            Ok(stored) => stored,
            Err(e) => {
                return Err(backend_error(e));
            },
        };
        let ghost found = stored.remaining();
        let mut copy = match Mem::gathered(stored) {
            Ok(copy) => copy,
            Err(e) => {
                return Err(backend_error(e));
            },
        };
        let changes = self.batch.to_raw();
        match copy.apply_batch(&changes) {
            Ok(_) => {},
            Err(e) => {
                return Err(backend_error(e));
            },
        }
        match copy.scan(&raw_lo, &raw_hi) {
            Ok(it) => {
                proof {
                    lemma_scan_as_map(found, self.base(), lo.raw(), hi.raw());
                    lemma_apply_agrees(
                        map_of(found),
                        self.base(),
                        raw_ops(self.staged()),
                        lo.raw(),
                        hi.raw(),
                    );
                    lemma_scan_agrees(
                        it.remaining(),
                        copy.entries(),
                        self.pending(),
                        lo.raw(),
                        hi.raw(),
                    );
                }
                Ok(KvIter::new(it))
            },
            Err(e) => Err(backend_error(e)),
        }
    }

    /// Stages the storing of `value` under `key`.
    pub fn upsert(&mut self, key: K, value: V)
        ensures
            final(self).base() == old(self).base(),
            final(self).reliable() == old(self).reliable(),
            final(self).staged() == old(self).staged().push(Event::Upsert { key, value }),
            final(self).pending() == old(self).pending().insert(
                K::encoded(key@),
                V::encoded(value@),
            ),
    {
        proof {
            let ops = self.staged().push(Event::Upsert { key, value });
            assert(raw_ops(ops).drop_last() =~= raw_ops(self.staged()));
        }
        self.batch.upsert(key, value);
    }

    /// Stages the removal of `key`.
    pub fn remove(&mut self, key: K)
        ensures
            final(self).base() == old(self).base(),
            final(self).reliable() == old(self).reliable(),
            final(self).staged() == old(self).staged().push(Event::Remove { key }),
            final(self).pending() == old(self).pending().remove(K::encoded(key@)),
    {
        proof {
            let ops = self.staged().push(Event::Remove { key });
            assert(raw_ops(ops).drop_last() =~= raw_ops(self.staged()));
        }
        self.batch.remove(key);
    }

    /// Stages the removal of every key.
    pub fn clear(&mut self)
        ensures
            final(self).base() == old(self).base(),
            final(self).reliable() == old(self).reliable(),
            final(self).staged() == old(self).staged().push(Event::<K, V>::RemoveAll),
            final(self).pending() == RawMap::empty(),
    {
        proof {
            let ops = self.staged().push(Event::<K, V>::RemoveAll);
            assert(raw_ops(ops).drop_last() =~= raw_ops(self.staged()));
        }
        self.batch.clear();
    }

    /// Ends the staging and hands out the batch, which is written with
    /// `Collection::write_batch` or dropped to give the transaction up.
    pub fn into_batch(self) -> (batch: Batch<K, V>)
        ensures
            batch@ == self.staged(),
    {
        self.batch
    }
}

impl<B: Backend, K: Key, V: Codec> Collection<B, K, V> {
    /// Runs a write transaction on one collection: `f` is given a staging
    /// handle and hands back what it made together with what it staged, or
    /// its reason for giving up. What was staged is then written, all of it or
    /// none. Where `f` gives up, or the engine fails, nothing is changed and
    /// nobody is told.
    pub fn write<'c, D, A, F>(&'c mut self, f: F) -> (r: TransactionResult<D, A, String>) where
        F: for <'a>FnOnce(TxColRw<'a, B, K, V>) -> Result<
            (D, Batch<K, V>),
            TransactionError<A, String>,
        >,

        requires
            forall|tx: TxColRw<'c, B, K, V>|
                tx.base() == old(self).raw() && tx.reliable() == old(self).reliable()
                    && tx.staged().len() == 0 ==> call_requires(f, (tx,)),
        ensures
            final(self).reliable() == old(self).reliable(),
            exists|
                tx: TxColRw<'c, B, K, V>,
                made: Result<(D, Batch<K, V>), TransactionError<A, String>>,
            |
                {
                    &&& tx.base() == old(self).raw()
                    &&& tx.reliable() == old(self).reliable()
                    &&& tx.staged().len() == 0
                    &&& call_ensures(f, (tx,), made)
                    &&& match made {
                        Err(e) => r == Err::<D, TransactionError<A, String>>(e) && final(self).raw()
                            == old(self).raw() && final(self).hub() == old(self).hub(),
                        Ok((d, batch)) => match r {
                            Ok(x) => {
                                &&& x == d
                                &&& final(self).raw() == apply_ops(old(self).raw(), raw_ops(batch@))
                                &&& final(self).hub() == old(self).hub().published(batch@)
                            },
                            Err(TransactionError::BackendErr(_)) => {
                                &&& !old(self).reliable()
                                &&& final(self).raw() == old(self).raw()
                                &&& final(self).hub() == old(self).hub()
                            },
                            Err(_) => false,
                        },
                    }
                },
    {
        let made = f(TxColRw::new(&*self));
        match made {
            Err(e) => Err(e),
            Ok((d, batch)) => match self.write_batch(batch) {
                Ok(_) => Ok(d),
                Err(e) => match e {
                    KvError::BackendError(message) => Err(TransactionError::BackendErr(message)),
                    other => Err(TransactionError::KvError(other)),
                },
            },
        }
    }
}

} // verus!
