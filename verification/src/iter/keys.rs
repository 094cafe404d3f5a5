//! The walk over the keys of a scan.

use crate::backend::{BackendIter, RawEntry, ReversibleIter};
use crate::codec::Key;
use crate::error::{KvError, KvResult};
use crate::iter::{answered, key_made, key_of_answer, key_read, next_res_of, stepped, Stepped};
use std::marker::PhantomData;
use vstd::prelude::*;

verus! {

/// A walk over the keys of a scan; the values are not decoded.
pub struct KvIterKeys<BI: BackendIter, K: Key> {
    backend_iter: BI,
    phantom: PhantomData<K>,
}

impl<BI: BackendIter, K: Key> KvIterKeys<BI, K> {
    /// The stored entries still to come.
    pub closed spec fn remaining(&self) -> Seq<RawEntry> {
        self.backend_iter.remaining()
    }

    /// The engine behind the walk never fails.
    pub closed spec fn reliable(&self) -> bool {
        self.backend_iter.reliable()
    }

    /// A walk over the keys of what `backend_iter` yields.
    pub fn new(backend_iter: BI) -> (it: Self)
        ensures
            it.remaining() == backend_iter.remaining(),
            it.reliable() == backend_iter.reliable(),
    {
        Self { backend_iter, phantom: PhantomData }
    }

    /// The key of the next entry, decoded: `None` at the end, the key where
    /// its bytes stand for one, a `DeserError` where they do not, and the
    /// engine's failure as a `BackendError` with the engine's message. What
    /// is reported is what `key_of_answer` makes of the engine's answer.
    pub fn next(&mut self) -> (r: Option<KvResult<K>>)
        ensures
            final(self).reliable() == old(self).reliable(),
            match r {
                None => old(self).remaining().len() == 0 && final(self).remaining().len() == 0,
                Some(Err(KvError::BackendError(_))) => !old(self).reliable(),
                Some(read) => {
                    &&& old(self).remaining().len() > 0
                    &&& key_read(old(self).remaining()[0], read)
                    &&& final(self).remaining() == old(self).remaining().drop_first()
                },
            },
            exists|answer: Option<Result<(Vec<u8>, Vec<u8>), String>>|
                answered(
                    old(self).remaining(),
                    final(self).remaining(),
                    old(self).reliable(),
                    answer,
                ) && #[trigger] key_made(answer, r),
    {
        key_of_answer(self.backend_iter.next_entry())
    }

    /// The next key, with the end of the walk inside the result.
    pub fn next_res(&mut self) -> (r: KvResult<Option<K>>)
        ensures
            final(self).reliable() == old(self).reliable(),
            match r {
                Ok(None) => old(self).remaining().len() == 0 && final(self).remaining().len() == 0,
                Err(KvError::BackendError(_)) => !old(self).reliable(),
                Ok(Some(key)) => {
                    &&& old(self).remaining().len() > 0
                    &&& key_read::<K>(old(self).remaining()[0], Ok(key))
                    &&& final(self).remaining() == old(self).remaining().drop_first()
                },
                Err(e) => {
                    &&& old(self).remaining().len() > 0
                    &&& key_read::<K>(old(self).remaining()[0], Err(e))
                    &&& final(self).remaining() == old(self).remaining().drop_first()
                },
            },
    {
        next_res_of(self.next())
    }

    /// The first key still to come and then every `step`-th one.
    pub fn step_by(self, step: usize) -> (it: KvIterKeys<Stepped<BI>, K>)
        requires
            step > 0,
        ensures
            it.remaining() == stepped(self.remaining(), 0, step),
            it.reliable() == self.reliable(),
    {
        KvIterKeys::new(Stepped::new(self.backend_iter, step))
    }

    /// All the keys still to come, or the first error.
    pub fn collect(self) -> (r: KvResult<Vec<K>>)
        ensures
            match r {
                Ok(items) => {
                    &&& items@.len() == self.remaining().len()
                    &&& forall|i: int|
                        0 <= i < items@.len() ==> key_read::<K>(
                            self.remaining()[i],
                            Ok(#[trigger] items@[i]),
                        )
                },
                Err(KvError::BackendError(_)) => !self.reliable(),
                Err(e) => exists|i: int|
                    0 <= i < self.remaining().len() && key_read::<K>(
                        #[trigger] self.remaining()[i],
                        Err(e),
                    ),
            },
    {
        let mut it = self;
        let mut items: Vec<K> = Vec::new();
        loop
            invariant
                it.reliable() == self.reliable(),
                items@.len() <= self.remaining().len(),
                it.remaining() == self.remaining().skip(items@.len() as int),
                forall|i: int|
                    0 <= i < items@.len() ==> key_read::<K>(
                        self.remaining()[i],
                        Ok(#[trigger] items@[i]),
                    ),
            decreases it.remaining().len(),
        {
            let ghost at = items@.len() as int;
            match it.next() {
                None => {
                    return Ok(items);
                },
                Some(Ok(key)) => {
                    assert(self.remaining().skip(at).drop_first() =~= self.remaining().skip(
                        at + 1,
                    ));
                    items.push(key);
                },
                Some(Err(e)) => {
                    assert(e is BackendError || key_read::<K>(self.remaining()[at], Err(e)));
                    return Err(e);
                },
            }
        }
    }
}

impl<BI: ReversibleIter, K: Key> KvIterKeys<BI, K> {
    /// The same keys, last first.
    pub fn reverse(self) -> (it: Self)
        ensures
            it.remaining() == self.remaining().reverse(),
            it.reliable() == self.reliable(),
    {
        KvIterKeys::new(self.backend_iter.reverse())
    }
}

} // verus!
