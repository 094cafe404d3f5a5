//! Typed walks over a scan: entries, keys or values, each decoded when it is
//! asked for, so that one damaged entry is reported at its place and the
//! entries before it are not lost.

pub mod keys;

use crate::backend::{BackendIter, RawEntry, ReversibleIter};
use crate::codec::show::shows;
use crate::codec::{Codec, Key};
use crate::error::{KvError, KvResult};
use crate::iter::keys::KvIterKeys;
use std::marker::PhantomData;
use vstd::prelude::*;

verus! {

/// How far a walk that yields every `step`-th entry moves after each entry
/// that it yields.
pub open spec fn gap(step: usize) -> nat {
    if step == 0 {
        0
    } else {
        (step - 1) as nat
    }
}

/// The entries of `s` that a walk yields which first passes over `skip`
/// entries and then yields every `step`-th one.
pub open spec fn stepped(s: Seq<RawEntry>, skip: nat, step: usize) -> Seq<RawEntry>
    decreases s.len(),
{
    if skip >= s.len() {
        Seq::empty()
    } else {
        seq![s[skip as int]] + stepped(s.skip(skip as int + 1), gap(step), step)
    }
}

/// A walk that yields the first entry of another walk and then every
/// `step`-th one.
pub struct Stepped<BI: BackendIter> {
    inner: BI,
    step: usize,
    skip: usize,
}

impl<BI: BackendIter> Stepped<BI> {
    /// Every `step`-th entry of `inner`, the first one included.
    pub fn new(inner: BI, step: usize) -> (it: Self)
        requires
            step > 0,
        ensures
            it.remaining() == stepped(inner.remaining(), 0, step),
            it.reliable() == inner.reliable(),
    {
        Stepped { inner, step, skip: 0 }
    }
}

impl<BI: BackendIter> BackendIter for Stepped<BI> {
    closed spec fn remaining(&self) -> Seq<RawEntry> {
        stepped(self.inner.remaining(), self.skip as nat, self.step)
    }

    closed spec fn reliable(&self) -> bool {
        self.inner.reliable()
    }

    fn next_entry(&mut self) -> (r: Option<Result<(Vec<u8>, Vec<u8>), String>>) {
        let ghost start = self.inner.remaining();
        let ghost start_skip = self.skip;
        while self.skip > 0
            invariant
                self.step == old(self).step,
                start == old(self).inner.remaining(),
                start_skip == old(self).skip,
                self.inner.reliable() == old(self).inner.reliable(),
                self.skip <= start_skip,
                start_skip - self.skip <= start.len(),
                self.inner.remaining() == start.skip(start_skip - self.skip),
            decreases self.skip,
        {
            match self.inner.next_entry() {
                None => {
                    assert(stepped(start, start_skip as nat, self.step).len() == 0);
                    return None;
                },
                Some(Err(e)) => {
                    return Some(Err(e));
                },
                Some(Ok(_)) => {
                    self.skip = self.skip - 1;
                    assert(start.skip(start_skip - self.skip - 1).drop_first() =~= start.skip(
                        start_skip - self.skip,
                    ));
                },
            }
        }
        match self.inner.next_entry() {
            None => {
                assert(stepped(start, start_skip as nat, self.step).len() == 0);
                None
            },
            Some(Err(e)) => Some(Err(e)),
            Some(Ok(entry)) => {
                self.skip = if self.step == 0 {
                    0
                } else {
                    self.step - 1
                };
                proof {
                    let tail = stepped(start.skip(start_skip + 1), gap(self.step), self.step);
                    assert(start.skip(start_skip as int).drop_first() =~= start.skip(
                        start_skip + 1,
                    ));
                    assert((seq![start[start_skip as int]] + tail).drop_first() =~= tail);
                }
                Some(Ok(entry))
            },
        }
    }
}

/// What a typed walk reports for one stored entry when it reads the key
/// alone: the key, or that the bytes are damaged, with a message that
/// shows them.
pub open spec fn key_read<K: Key>(entry: RawEntry, r: KvResult<K>) -> bool {
    match r {
        Ok(key) => K::decoded(entry.0) == Some(key@),
        Err(KvError::DeserError(message)) => K::decoded(entry.0) is None && shows(message@, entry.0),
        Err(_) => false,
    }
}

/// What a typed walk reports for one stored entry when it reads the value
/// alone.
pub open spec fn value_read<V: Codec>(entry: RawEntry, r: KvResult<V>) -> bool {
    match r {
        Ok(value) => V::decoded(entry.1) == Some(value@),
        Err(KvError::DeserError(message)) => V::decoded(entry.1) is None && shows(message@, entry.1),
        Err(_) => false,
    }
}

/// What a typed walk reports for one stored entry when it reads both.
pub open spec fn entry_read<K: Key, V: Codec>(entry: RawEntry, r: KvResult<(K, V)>) -> bool {
    match r {
        Ok((key, value)) => K::decoded(entry.0) == Some(key@) && V::decoded(entry.1) == Some(
            value@,
        ),
        Err(KvError::DeserError(message)) => {
            ||| K::decoded(entry.0) is None && shows(message@, entry.0)
            ||| V::decoded(entry.1) is None && shows(message@, entry.1)
        },
        Err(_) => false,
    }
}

/// A list of results turned into the result of a list: the first error, or
/// all the items.
pub fn next_res_of<T>(step: Option<KvResult<T>>) -> (r: KvResult<Option<T>>)
    ensures
        r == match step {
            None => Ok::<Option<T>, KvError>(None),
            Some(Ok(item)) => Ok(Some(item)),
            Some(Err(e)) => Err(e),
        },
{
    match step {
        None => Ok(None),
        Some(Ok(item)) => Ok(Some(item)),
        Some(Err(e)) => Err(e),
    }
}

/// What an engine may answer when it is asked for the next entry of a
/// walk that had `was` to come and has `now` to come afterwards: the end
/// at the end, the first entry, or, where it is not reliable, a failure.
pub open spec fn answered(
    was: Seq<RawEntry>,
    now: Seq<RawEntry>,
    reliable: bool,
    answer: Option<Result<(Vec<u8>, Vec<u8>), String>>,
) -> bool {
    match answer {
        None => was.len() == 0 && now.len() == 0,
        Some(Ok((k, v))) => was.len() > 0 && (k@, v@) == was[0] && now == was.drop_first(),
        Some(Err(_)) => !reliable,
    }
}

/// What a walk over the keys reports for an answer of the engine.
pub open spec fn key_made<K: Key>(
    answer: Option<Result<(Vec<u8>, Vec<u8>), String>>,
    r: Option<KvResult<K>>,
) -> bool {
    match answer {
        None => r is None,
        Some(Err(e)) => r == Some(Err::<K, KvError>(KvError::BackendError(e))),
        Some(Ok((k, v))) => r matches Some(read) && key_read((k@, v@), read),
    }
}

/// What a walk over the values reports for an answer of the engine.
pub open spec fn value_made<V: Codec>(
    answer: Option<Result<(Vec<u8>, Vec<u8>), String>>,
    r: Option<KvResult<V>>,
) -> bool {
    match answer {
        None => r is None,
        Some(Err(e)) => r == Some(Err::<V, KvError>(KvError::BackendError(e))),
        Some(Ok((k, v))) => r matches Some(read) && value_read((k@, v@), read),
    }
}

/// What a walk over the entries reports for an answer of the engine; where
/// the key and the value are both damaged, it is the key that is
/// reported.
pub open spec fn entry_made<K: Key, V: Codec>(
    answer: Option<Result<(Vec<u8>, Vec<u8>), String>>,
    r: Option<KvResult<(K, V)>>,
) -> bool {
    match answer {
        None => r is None,
        Some(Err(e)) => r == Some(Err::<(K, V), KvError>(KvError::BackendError(e))),
        Some(Ok((k, v))) => {
            &&& r matches Some(read) && entry_read((k@, v@), read)
            &&& K::decoded(k@) is None ==> (r matches Some(Err(KvError::DeserError(message)))
                && shows(message@, k@))
        },
    }
}

/// What a walk over the keys makes of one answer of the engine: the end
/// of the walk stays the end, the engine's failure is handed on as a
/// `BackendError` with the engine's message, and the key of an entry is
/// decoded.
pub fn key_of_answer<K: Key>(answer: Option<Result<(Vec<u8>, Vec<u8>), String>>) -> (r: Option<
    KvResult<K>,
>)
    ensures
        key_made(answer, r),
{
    match answer {
        Some(Ok((key_bytes, _value_bytes))) => match K::from_bytes(key_bytes.as_slice()) {
            Ok(key) => Some(Ok(key)),
            Err(e) => Some(Err(KvError::DeserError(e.0))),
        },
        Some(Err(e)) => Some(Err(KvError::BackendError(e))),
        None => None,
    }
}

/// What a walk over the values makes of one answer of the engine: the end
/// of the walk stays the end, the engine's failure is handed on as a
/// `BackendError` with the engine's message, and the value of an entry is
/// decoded.
pub fn value_of_answer<V: Codec>(answer: Option<Result<(Vec<u8>, Vec<u8>), String>>) -> (r: Option<
    KvResult<V>,
>)
    ensures
        value_made(answer, r),
{
    match answer {
        Some(Ok((_key_bytes, value_bytes))) => match V::from_bytes(value_bytes.as_slice()) {
            Ok(value) => Some(Ok(value)),
            Err(e) => Some(Err(KvError::DeserError(e.0))),
        },
        Some(Err(e)) => Some(Err(KvError::BackendError(e))),
        None => None,
    }
}

/// What a walk over the entries makes of one answer of the engine: the
/// end of the walk stays the end, the engine's failure is handed on as a
/// `BackendError` with the engine's message, and the key and the value of
/// an entry are decoded, the key first.
pub fn entry_of_answer<K: Key, V: Codec>(
    answer: Option<Result<(Vec<u8>, Vec<u8>), String>>,
) -> (r: Option<KvResult<(K, V)>>)
    ensures
        entry_made(answer, r),
{
    match answer {
        Some(Ok((key_bytes, value_bytes))) => match K::from_bytes(key_bytes.as_slice()) {
            Ok(key) => match V::from_bytes(value_bytes.as_slice()) {
                Ok(value) => Some(Ok((key, value))),
                Err(e) => Some(Err(KvError::DeserError(e.0))),
            },
            Err(e) => Some(Err(KvError::DeserError(e.0))),
        },
        Some(Err(e)) => Some(Err(KvError::BackendError(e))),
        None => None,
    }
}

/// A walk over the entries of a scan, each as a typed key with its typed
/// value.
pub struct KvIter<BI: BackendIter, K: Key, V: Codec> {
    backend_iter: BI,
    phantom: PhantomData<(K, V)>,
}

/// A walk over the values of a scan.
pub struct KvIterValues<BI: BackendIter, V: Codec> {
    backend_iter: BI,
    phantom: PhantomData<V>,
}

impl<BI: BackendIter, K: Key, V: Codec> KvIter<BI, K, V> {
    /// The stored entries still to come.
    pub closed spec fn remaining(&self) -> Seq<RawEntry> {
        self.backend_iter.remaining()
    }

    /// The engine behind the walk never fails.
    pub closed spec fn reliable(&self) -> bool {
        self.backend_iter.reliable()
    }

    /// A typed walk over what `backend_iter` yields.
    pub fn new(backend_iter: BI) -> (it: Self)
        ensures
            it.remaining() == backend_iter.remaining(),
            it.reliable() == backend_iter.reliable(),
    {
        KvIter { backend_iter, phantom: PhantomData }
    }

    /// The next entry, decoded. A damaged entry is reported and passed
    /// over; an engine's failure is handed on.
    pub fn next(&mut self) -> (r: Option<KvResult<(K, V)>>)
        ensures
            final(self).reliable() == old(self).reliable(),
            match r {
                None => old(self).remaining().len() == 0 && final(self).remaining().len() == 0,
                Some(Err(KvError::BackendError(_))) => !old(self).reliable(),
                Some(read) => {
                    &&& old(self).remaining().len() > 0
                    &&& entry_read(old(self).remaining()[0], read)
                    &&& final(self).remaining() == old(self).remaining().drop_first()
                },
            },
            exists|answer: Option<Result<(Vec<u8>, Vec<u8>), String>>|
                answered(
                    old(self).remaining(),
                    final(self).remaining(),
                    old(self).reliable(),
                    answer,
                ) && #[trigger] entry_made(answer, r),
    {
        entry_of_answer(self.backend_iter.next_entry())
    }

    /// The next entry, with the end of the walk inside the result.
    pub fn next_res(&mut self) -> (r: KvResult<Option<(K, V)>>)
        ensures
            final(self).reliable() == old(self).reliable(),
            match r {
                Ok(None) => old(self).remaining().len() == 0 && final(self).remaining().len() == 0,
                Err(KvError::BackendError(_)) => !old(self).reliable(),
                Ok(Some(entry)) => {
                    &&& old(self).remaining().len() > 0
                    &&& entry_read::<K, V>(old(self).remaining()[0], Ok(entry))
                    &&& final(self).remaining() == old(self).remaining().drop_first()
                },
                Err(e) => {
                    &&& old(self).remaining().len() > 0
                    &&& entry_read::<K, V>(old(self).remaining()[0], Err(e))
                    &&& final(self).remaining() == old(self).remaining().drop_first()
                },
            },
    {
        next_res_of(self.next())
    }

    /// The same walk, yielding the keys alone.
    pub fn keys(self) -> (it: KvIterKeys<BI, K>)
        ensures
            it.remaining() == self.remaining(),
            it.reliable() == self.reliable(),
    {
        KvIterKeys::new(self.backend_iter)
    }

    /// The same walk, yielding the values alone.
    pub fn values(self) -> (it: KvIterValues<BI, V>)
        ensures
            it.remaining() == self.remaining(),
            it.reliable() == self.reliable(),
    {
        KvIterValues::new(self.backend_iter)
    }

    /// The first entry still to come and then every `step`-th one.
    pub fn step_by(self, step: usize) -> (it: KvIter<Stepped<BI>, K, V>)
        requires
            step > 0,
        ensures
            it.remaining() == stepped(self.remaining(), 0, step),
            it.reliable() == self.reliable(),
    {
        KvIter::new(Stepped::new(self.backend_iter, step))
    }

    /// All the entries still to come, or the first error.
    pub fn collect(self) -> (r: KvResult<Vec<(K, V)>>)
        ensures
            match r {
                Ok(items) => {
                    &&& items@.len() == self.remaining().len()
                    &&& forall|i: int|
                        0 <= i < items@.len() ==> entry_read::<K, V>(
                            self.remaining()[i],
                            Ok(#[trigger] items@[i]),
                        )
                },
                Err(KvError::BackendError(_)) => !self.reliable(),
                Err(e) => exists|i: int|
                    0 <= i < self.remaining().len() && entry_read::<K, V>(
                        #[trigger] self.remaining()[i],
                        Err(e),
                    ),
            },
    {
        let mut it = self;
        let mut items: Vec<(K, V)> = Vec::new();
        loop
            invariant
                it.reliable() == self.reliable(),
                items@.len() <= self.remaining().len(),
                it.remaining() == self.remaining().skip(items@.len() as int),
                forall|i: int|
                    0 <= i < items@.len() ==> entry_read::<K, V>(
                        self.remaining()[i],
                        Ok(#[trigger] items@[i]),
                    ),
            decreases it.remaining().len(),
        {
            let ghost at = items@.len() as int;
            match it.next() {
                None => {
                    return Ok(items);
                },
                Some(Ok(entry)) => {
                    assert(self.remaining().skip(at).drop_first() =~= self.remaining().skip(
                        at + 1,
                    ));
                    items.push(entry);
                },
                Some(Err(e)) => {
                    assert(e is BackendError || entry_read::<K, V>(self.remaining()[at], Err(e)));
                    return Err(e);
                },
            }
        }
    }
}

impl<BI: ReversibleIter, K: Key, V: Codec> KvIter<BI, K, V> {
    /// The same entries, last first.
    pub fn reverse(self) -> (it: Self)
        ensures
            it.remaining() == self.remaining().reverse(),
            it.reliable() == self.reliable(),
    {
        KvIter::new(self.backend_iter.reverse())
    }
}

impl<BI: BackendIter, V: Codec> KvIterValues<BI, V> {
    /// The stored entries still to come.
    pub closed spec fn remaining(&self) -> Seq<RawEntry> {
        self.backend_iter.remaining()
    }

    /// The engine behind the walk never fails.
    pub closed spec fn reliable(&self) -> bool {
        self.backend_iter.reliable()
    }

    /// A walk over the values of what `backend_iter` yields.
    pub fn new(backend_iter: BI) -> (it: Self)
        ensures
            it.remaining() == backend_iter.remaining(),
            it.reliable() == backend_iter.reliable(),
    {
        KvIterValues { backend_iter, phantom: PhantomData }
    }

    /// The value of the next entry, decoded.
    pub fn next(&mut self) -> (r: Option<KvResult<V>>)
        ensures
            final(self).reliable() == old(self).reliable(),
            match r {
                None => old(self).remaining().len() == 0 && final(self).remaining().len() == 0,
                Some(Err(KvError::BackendError(_))) => !old(self).reliable(),
                Some(read) => {
                    &&& old(self).remaining().len() > 0
                    &&& value_read(old(self).remaining()[0], read)
                    &&& final(self).remaining() == old(self).remaining().drop_first()
                },
            },
            exists|answer: Option<Result<(Vec<u8>, Vec<u8>), String>>|
                answered(
                    old(self).remaining(),
                    final(self).remaining(),
                    old(self).reliable(),
                    answer,
                ) && #[trigger] value_made(answer, r),
    {
        value_of_answer(self.backend_iter.next_entry())
    }

    /// The next value, with the end of the walk inside the result.
    pub fn next_res(&mut self) -> (r: KvResult<Option<V>>)
        ensures
            final(self).reliable() == old(self).reliable(),
            match r {
                Ok(None) => old(self).remaining().len() == 0 && final(self).remaining().len() == 0,
                Err(KvError::BackendError(_)) => !old(self).reliable(),
                Ok(Some(value)) => {
                    &&& old(self).remaining().len() > 0
                    &&& value_read::<V>(old(self).remaining()[0], Ok(value))
                    &&& final(self).remaining() == old(self).remaining().drop_first()
                },
                Err(e) => {
                    &&& old(self).remaining().len() > 0
                    &&& value_read::<V>(old(self).remaining()[0], Err(e))
                    &&& final(self).remaining() == old(self).remaining().drop_first()
                },
            },
    {
        next_res_of(self.next())
    }

    /// The first value still to come and then every `step`-th one.
    pub fn step_by(self, step: usize) -> (it: KvIterValues<Stepped<BI>, V>)
        requires
            step > 0,
        ensures
            it.remaining() == stepped(self.remaining(), 0, step),
            it.reliable() == self.reliable(),
    {
        KvIterValues::new(Stepped::new(self.backend_iter, step))
    }

    /// All the values still to come, or the first error.
    pub fn collect(self) -> (r: KvResult<Vec<V>>)
        ensures
            match r {
                Ok(items) => {
                    &&& items@.len() == self.remaining().len()
                    &&& forall|i: int|
                        0 <= i < items@.len() ==> value_read::<V>(
                            self.remaining()[i],
                            Ok(#[trigger] items@[i]),
                        )
                },
                Err(KvError::BackendError(_)) => !self.reliable(),
                Err(e) => exists|i: int|
                    0 <= i < self.remaining().len() && value_read::<V>(
                        #[trigger] self.remaining()[i],
                        Err(e),
                    ),
            },
    {
        let mut it = self;
        let mut items: Vec<V> = Vec::new();
        loop
            invariant
                it.reliable() == self.reliable(),
                items@.len() <= self.remaining().len(),
                it.remaining() == self.remaining().skip(items@.len() as int),
                forall|i: int|
                    0 <= i < items@.len() ==> value_read::<V>(
                        self.remaining()[i],
                        Ok(#[trigger] items@[i]),
                    ),
            decreases it.remaining().len(),
        {
            let ghost at = items@.len() as int;
            match it.next() {
                None => {
                    return Ok(items);
                },
                Some(Ok(value)) => {
                    assert(self.remaining().skip(at).drop_first() =~= self.remaining().skip(
                        at + 1,
                    ));
                    items.push(value);
                },
                Some(Err(e)) => {
                    assert(e is BackendError || value_read::<V>(self.remaining()[at], Err(e)));
                    return Err(e);
                },
            }
        }
    }
}

impl<BI: ReversibleIter, V: Codec> KvIterValues<BI, V> {
    /// The same values, last first.
    pub fn reverse(self) -> (it: Self)
        ensures
            it.remaining() == self.remaining().reverse(),
            it.reliable() == self.reliable(),
    {
        KvIterValues::new(self.backend_iter.reverse())
    }
}

} // verus!
