//! Batches: changes that are staged in memory, can be read back from
//! there, and reach the engine only when the batch is written.

use crate::backend::{apply_ops, OpView, RawMap, RawOp};
use crate::codec::{Codec, Key};
use crate::event::Event;
use crate::lex::{compare_bytes, Order};
use vstd::prelude::*;

verus! {

/// What a batch says of one key.
#[derive(Debug, PartialEq)]
pub enum BatchGet<'a, V> {
    /// The batch does not touch the key.
    Absent,
    /// The batch takes the key out.
    Deleted,
    /// The batch stores this value under the key.
    Updated(&'a V),
}

/// What a batch says of one key, in the model.
pub enum Staged<V> {
    Absent,
    Deleted,
    Updated(V),
}

/// The staged changes of one collection, in the order in which they were
/// staged.
pub struct Batch<K: Key, V: Codec> {
    ops: Vec<Event<K, V>>,
}

/// The change to the engine that a staged change stands for.
pub open spec fn raw_op<K: Key, V: Codec>(op: Event<K, V>) -> OpView {
    match op {
        Event::Upsert { key, value } => OpView::Upsert(K::encoded(key@), V::encoded(value@)),
        Event::Remove { key } => OpView::Remove(K::encoded(key@)),
        Event::RemoveAll => OpView::RemoveAll,
    }
}

/// The changes to the engine that staged changes stand for.
pub open spec fn raw_ops<K: Key, V: Codec>(ops: Seq<Event<K, V>>) -> Seq<OpView> {
    ops.map_values(|op: Event<K, V>| raw_op(op))
}

/// What the staged changes `ops` say of the key with the bytes `key`: what
/// the last of them that touches the key says.
pub open spec fn staged<K: Key, V: Codec>(ops: Seq<Event<K, V>>, key: Seq<u8>) -> Staged<V>
    decreases ops.len(),
{
    if ops.len() == 0 {
        Staged::Absent
    } else {
        match ops.last() {
            Event::Upsert { key: k, value } => if K::encoded(k@) == key {
                Staged::Updated(value)
            } else {
                staged(ops.drop_last(), key)
            },
            Event::Remove { key: k } => if K::encoded(k@) == key {
                Staged::Deleted
            } else {
                staged(ops.drop_last(), key)
            },
            Event::RemoveAll => Staged::Deleted,
        }
    }
}

/// What is stored under `key` once the staged changes `ops` are made to
/// `before`: what the batch says of the key, and what was stored before
/// where the batch does not touch it.
pub proof fn lemma_staged_is_applied<K: Key, V: Codec>(
    before: RawMap,
    ops: Seq<Event<K, V>>,
    key: Seq<u8>,
)
    ensures
        ({
            let after = apply_ops(before, raw_ops(ops));
            match staged(ops, key) {
                Staged::Updated(value) => after.contains_key(key) && after[key] == V::encoded(
                    value@,
                ),
                Staged::Deleted => !after.contains_key(key),
                Staged::Absent => after.contains_key(key) == before.contains_key(key) && (
                before.contains_key(key) ==> after[key] == before[key]),
            }
        }),
    decreases ops.len(),
{
    if ops.len() > 0 {
        lemma_staged_is_applied(before, ops.drop_last(), key);
        assert(raw_ops(ops).drop_last() =~= raw_ops(ops.drop_last()));
        assert(raw_ops(ops).last() == raw_op(ops.last()));
    }
}

impl<K: Key, V: Codec> View for Batch<K, V> {
    type V = Seq<Event<K, V>>;

    closed spec fn view(&self) -> Seq<Event<K, V>> {
        self.ops@
    }
}

impl<K: Key, V: Codec> Batch<K, V> {
    /// A batch that stages nothing.
    pub fn new() -> (batch: Self)
        ensures
            batch@.len() == 0,
    {
        Batch { ops: Vec::new() }
    }

    /// Stages the storing of `value` under `key`.
    pub fn upsert(&mut self, key: K, value: V)
        ensures
            final(self)@ == old(self)@.push(Event::Upsert { key, value }),
    {
        self.ops.push(Event::Upsert { key, value });
    }

    /// Stages the removal of `key`.
    pub fn remove(&mut self, key: K)
        ensures
            final(self)@ == old(self)@.push(Event::Remove { key }),
    {
        self.ops.push(Event::Remove { key });
    }

    /// Stages the removal of every key.
    pub fn clear(&mut self)
        ensures
            final(self)@ == old(self)@.push(Event::RemoveAll),
    {
        self.ops.push(Event::RemoveAll);
    }

    /// How many changes are staged.
    pub fn len(&self) -> (n: usize)
        ensures
            n == self@.len(),
    {
        self.ops.len()
    }

    /// What the batch says of `key`. The engine is not asked.
    pub fn get<'a>(&'a self, key: &K) -> (r: BatchGet<'a, V>)
        ensures
            match staged(self@, K::encoded(key@)) {
                Staged::Absent => r is Absent,
                Staged::Deleted => r is Deleted,
                Staged::Updated(value) => r matches BatchGet::Updated(v) && *v == value,
            },
    {
        let wanted = key.as_bytes();
        let mut i: usize = self.ops.len();
        assert(self@.subrange(0, i as int) =~= self@);
        while i > 0
            invariant
                i <= self@.len(),
                wanted@ == K::encoded(key@),
                staged(self@, wanted@) == staged(self@.subrange(0, i as int), wanted@),
            decreases i,
        {
            let ghost upto = self@.subrange(0, i as int);
            assert(upto.drop_last() =~= self@.subrange(0, i as int - 1));
            assert(upto.last() == self@[i as int - 1]);
            i = i - 1;
            match &self.ops[i] {
                Event::Upsert { key: k, value } => {
                    let there = k.as_bytes();
                    if compare_bytes(there.as_slice(), wanted.as_slice()) == Order::Equal {
                        return BatchGet::Updated(value);
                    }
                },
                Event::Remove { key: k } => {
                    let there = k.as_bytes();
                    if compare_bytes(there.as_slice(), wanted.as_slice()) == Order::Equal {
                        return BatchGet::Deleted;
                    }
                },
                Event::RemoveAll => {
                    return BatchGet::Deleted;
                },
            }
        }
        BatchGet::Absent
    }

    /// The changes to the engine that the batch stands for.
    pub fn to_raw(&self) -> (raw: Vec<RawOp>)
        ensures
            crate::backend::ops_of(raw@) == raw_ops(self@),
    {
        let mut raw: Vec<RawOp> = Vec::new();
        let mut i: usize = 0;
        while i < self.ops.len()
            invariant
                i <= self@.len(),
                raw@.len() == i,
                forall|j: int| 0 <= j < i ==> (#[trigger] raw@[j])@ == raw_op(self@[j]),
            decreases self.ops.len() - i,
        {
            let op = match &self.ops[i] {
                Event::Upsert { key, value } => RawOp::Upsert(key.as_bytes(), value.as_bytes()),
                Event::Remove { key } => RawOp::Remove(key.as_bytes()),
                Event::RemoveAll => RawOp::RemoveAll,
            };
            raw.push(op);
            i = i + 1;
        }
        assert(crate::backend::ops_of(raw@) =~= raw_ops(self@));
        raw
    }

    /// The staged changes, given up by the batch.
    pub fn into_events(self) -> (events: Vec<Event<K, V>>)
        ensures
            events@ == self@,
    {
        self.ops
    }
}

} // verus!
