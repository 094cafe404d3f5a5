//! A typed collection: one named mapping from keys to values, kept by one
//! storage engine, with the hub that tells its subscribers of each change.

use crate::backend::undo::{takes_back, undo_of};
use crate::backend::{
    above_lower, ascending, below_upper, in_range, is_scan, lemma_scan_unique, ops_of, scan_of,
    Backend, BackendIter, BoundView, RawBound, RawEntry, RawMap, RawOp, ReversibleIter,
};
use crate::batch::{raw_ops, Batch};
use crate::codec::show::shows;
use crate::codec::{lemma_encoding_injective, Codec, Key};
use crate::lex::{bytes_lt, lemma_lt_irreflexive, lemma_lt_transitive};
use crate::error::{KvError, KvResult};
use crate::event::{Event, EventHub, HubView};
use crate::iter::KvIter;
use std::sync::Arc;
use vstd::prelude::*;

verus! {

/// One end of a range of typed keys.
#[derive(Clone, Debug, PartialEq)]
pub enum KeyBound<K> {
    /// No limit on this side.
    Unbounded,
    /// The key itself is in the range.
    Included(K),
    /// The key itself is outside the range.
    Excluded(K),
}

impl<K: Key> KeyBound<K> {
    /// The same end over encoded keys.
    pub open spec fn raw(self) -> BoundView {
        match self {
            KeyBound::Unbounded => BoundView::Unbounded,
            KeyBound::Included(k) => BoundView::Included(K::encoded(k@)),
            KeyBound::Excluded(k) => BoundView::Excluded(K::encoded(k@)),
        }
    }

    /// The same end over encoded keys.
    pub fn to_raw(&self) -> (r: RawBound)
        ensures
            r@ == self.raw(),
    {
        match self {
            KeyBound::Unbounded => RawBound::Unbounded,
            KeyBound::Included(k) => RawBound::Included(k.as_bytes()),
            KeyBound::Excluded(k) => RawBound::Excluded(k.as_bytes()),
        }
    }
}

/// The key `k` is not below the lower end `lo`, in the order of the keys.
pub open spec fn key_above<K: Key>(k: K::V, lo: KeyBound<K>) -> bool {
    match lo {
        KeyBound::Unbounded => true,
        KeyBound::Included(b) => b@ == k || K::key_lt(b@, k),
        KeyBound::Excluded(b) => K::key_lt(b@, k),
    }
}

/// The key `k` is not above the upper end `hi`, in the order of the keys.
pub open spec fn key_below<K: Key>(k: K::V, hi: KeyBound<K>) -> bool {
    match hi {
        KeyBound::Unbounded => true,
        KeyBound::Included(b) => b@ == k || K::key_lt(k, b@),
        KeyBound::Excluded(b) => K::key_lt(k, b@),
    }
}

/// The end of a range holds a key that its type can hold.
pub open spec fn bound_valid<K: Key>(bound: KeyBound<K>) -> bool {
    match bound {
        KeyBound::Unbounded => true,
        KeyBound::Included(b) => K::valid(b@),
        KeyBound::Excluded(b) => K::valid(b@),
    }
}

/// A key lies in a range of keys exactly if its encoding lies in the range
/// of the encodings: a scan between typed ends yields the keys between
/// them, and no others.
pub proof fn lemma_typed_range<K: Key>(k: K::V, lo: KeyBound<K>, hi: KeyBound<K>)
    requires
        K::valid(k),
        bound_valid(lo),
        bound_valid(hi),
    ensures
        above_lower(K::encoded(k), lo.raw()) <==> key_above(k, lo),
        below_upper(K::encoded(k), hi.raw()) <==> key_below(k, hi),
        in_range(K::encoded(k), lo.raw(), hi.raw()) <==> key_above(k, lo) && key_below(k, hi),
{
    match lo {
        KeyBound::Unbounded => {},
        KeyBound::Included(b) => {
            K::lemma_order(b@, k);
            if K::encoded(b@) == K::encoded(k) {
                lemma_encoding_injective::<K>(b@, k);
            }
        },
        KeyBound::Excluded(b) => {
            K::lemma_order(b@, k);
        },
    }
    match hi {
        KeyBound::Unbounded => {},
        KeyBound::Included(b) => {
            K::lemma_order(k, b@);
            if K::encoded(b@) == K::encoded(k) {
                lemma_encoding_injective::<K>(b@, k);
            }
        },
        KeyBound::Excluded(b) => {
            K::lemma_order(k, b@);
        },
    }
}

/// A scan yields the keys in their own order: of two entries of an
/// ascending run that hold the encodings of keys, the earlier one holds
/// the smaller key. In the run turned round it is the later one.
pub proof fn lemma_scan_in_key_order<K: Key>(s: Seq<RawEntry>, i: int, j: int, a: K::V, b: K::V)
    requires
        ascending(s),
        0 <= i < j < s.len(),
        K::valid(a),
        K::valid(b),
        s[i].0 == K::encoded(a),
        s[j].0 == K::encoded(b),
    ensures
        K::key_lt(a, b),
        s.reverse()[s.len() - 1 - i] == s[i],
        s.reverse()[s.len() - 1 - j] == s[j],
        s.len() - 1 - j < s.len() - 1 - i,
{
    assert(bytes_lt(s[i].0, s[j].0));
    K::lemma_order(a, b);
}

/// What a collection holds in which three values were stored under three
/// keys.
pub open spec fn three_entries<K: Key>(
    k1: K::V,
    k2: K::V,
    k3: K::V,
    v1: Seq<u8>,
    v2: Seq<u8>,
    v3: Seq<u8>,
) -> RawMap {
    RawMap::empty().insert(K::encoded(k1), v1).insert(K::encoded(k2), v2).insert(K::encoded(k3), v3)
}

/// A collection that holds three keys `k1 < k2 < k3` is scanned as
/// follows: without ends, all three in that order; from `k2` on, `k2` and
/// `k3`; up to and with `k2`, `k1` and `k2`. (`iter` walks these runs and
/// `iter_rev` walks them last entry first.)
pub proof fn lemma_three_keys<K: Key>(
    k1: K::V,
    k2: K::V,
    k3: K::V,
    v1: Seq<u8>,
    v2: Seq<u8>,
    v3: Seq<u8>,
)
    requires
        K::valid(k1),
        K::valid(k2),
        K::valid(k3),
        K::key_lt(k1, k2),
        K::key_lt(k2, k3),
    ensures
        ({
            let stored = three_entries::<K>(k1, k2, k3, v1, v2, v3);
            let e1 = (K::encoded(k1), v1);
            let e2 = (K::encoded(k2), v2);
            let e3 = (K::encoded(k3), v3);
            &&& scan_of(stored, BoundView::Unbounded, BoundView::Unbounded) == seq![e1, e2, e3]
            &&& scan_of(stored, BoundView::Included(K::encoded(k2)), BoundView::Unbounded)
                == seq![e2, e3]
            &&& scan_of(stored, BoundView::Unbounded, BoundView::Included(K::encoded(k2)))
                == seq![e1, e2]
        }),
{
    let stored = three_entries::<K>(k1, k2, k3, v1, v2, v3);
    let (b1, b2, b3) = (K::encoded(k1), K::encoded(k2), K::encoded(k3));
    let e1 = (b1, v1);
    let e2 = (b2, v2);
    let e3 = (b3, v3);
    K::lemma_order(k1, k2);
    K::lemma_order(k2, k3);
    lemma_lt_transitive(b1, b2, b3);
    lemma_lt_irreflexive(b1);
    lemma_lt_irreflexive(b2);
    lemma_lt_irreflexive(b3);
    crate::lex::lemma_lt_total(b1, b2);
    crate::lex::lemma_lt_total(b2, b3);
    crate::lex::lemma_lt_total(b1, b3);
    assert(b1 != b2 && b2 != b3 && b1 != b3);
    assert(forall|k: Seq<u8>| stored.contains_key(k) <==> (k == b1 || k == b2 || k == b3));
    assert(stored[b1] == v1 && stored[b2] == v2 && stored[b3] == v3);
    let no = BoundView::Unbounded;
    let at2 = BoundView::Included(b2);

    let all = seq![e1, e2, e3];
    assert(is_scan(all, stored, no, no)) by {
        assert forall|k: Seq<u8>| #[trigger] stored.contains_key(k) && in_range(
            k,
            no,
            no,
        ) implies exists|i: int| 0 <= i < all.len() && (#[trigger] all[i]).0 == k by {
            if k == b1 {
                assert(all[0].0 == k);
            } else if k == b2 {
                assert(all[1].0 == k);
            } else {
                assert(all[2].0 == k);
            }
        }
    }
    lemma_scan_unique(all, stored, no, no);

    let upper = seq![e2, e3];
    assert(is_scan(upper, stored, at2, no)) by {
        assert forall|k: Seq<u8>| #[trigger] stored.contains_key(k) && in_range(
            k,
            at2,
            no,
        ) implies exists|i: int| 0 <= i < upper.len() && (#[trigger] upper[i]).0 == k by {
            if k == b2 {
                assert(upper[0].0 == k);
            } else if k == b3 {
                assert(upper[1].0 == k);
            }
        }
    }
    lemma_scan_unique(upper, stored, at2, no);

    let lower = seq![e1, e2];
    assert(is_scan(lower, stored, no, at2)) by {
        assert forall|k: Seq<u8>| #[trigger] stored.contains_key(k) && in_range(
            k,
            no,
            at2,
        ) implies exists|i: int| 0 <= i < lower.len() && (#[trigger] lower[i]).0 == k by {
            if k == b1 {
                assert(lower[0].0 == k);
            } else if k == b2 {
                assert(lower[1].0 == k);
            }
        }
    }
    lemma_scan_unique(lower, stored, no, at2);
}

/// What a read of the key with the bytes `key` reports when `raw` is
/// stored: the decoded value, that nothing is stored, or that what is
/// stored is damaged, with a message that shows the damaged bytes.
pub open spec fn read_of<V: Codec>(raw: RawMap, key: Seq<u8>, r: KvResult<Option<V>>) -> bool {
    match r {
        Ok(Some(value)) => raw.contains_key(key) && V::decoded(raw[key]) == Some(value@),
        Ok(None) => !raw.contains_key(key),
        Err(KvError::DeserError(message)) => {
            &&& raw.contains_key(key)
            &&& V::decoded(raw[key]) is None
            &&& shows(message@, raw[key])
        },
        Err(_) => false,
    }
}

/// What an engine that holds `raw` may answer when it is asked for the
/// bytes under `key`: the bytes, that there are none, or, where it is not
/// reliable, a failure.
pub open spec fn looked_up(
    raw: RawMap,
    key: Seq<u8>,
    reliable: bool,
    found: Result<Option<Vec<u8>>, String>,
) -> bool {
    match found {
        Ok(Some(bytes)) => raw.contains_key(key) && raw[key] == bytes@,
        Ok(None) => !raw.contains_key(key),
        Err(_) => !reliable,
    }
}

/// What a typed read reports for an answer of the engine.
pub open spec fn found_made<V: Codec>(
    found: Result<Option<Vec<u8>>, String>,
    r: KvResult<Option<V>>,
) -> bool {
    match found {
        Err(e) => r == Err::<Option<V>, KvError>(KvError::BackendError(e)),
        Ok(None) => r matches Ok(None),
        Ok(Some(bytes)) => match V::decoded(bytes@) {
            Some(stored) => r matches Ok(Some(value)) && value@ == stored,
            None => r matches Err(KvError::DeserError(message)) && shows(message@, bytes@),
        },
    }
}

/// What a typed read makes of the engine's answer: the engine's failure
/// is handed on as a `BackendError` with the engine's message, nothing
/// stored stays nothing, and stored bytes are decoded.
pub fn value_of_found<V: Codec>(found: Result<Option<Vec<u8>>, String>) -> (r: KvResult<Option<V>>)
    ensures
        found_made(found, r),
{
    match found {
        Ok(Some(value_bytes)) => match V::from_bytes(value_bytes.as_slice()) {
            Ok(value) => Ok(Some(value)),
            Err(e) => Err(KvError::DeserError(e.0)),
        },
        Ok(None) => Ok(None),
        Err(e) => Err(KvError::BackendError(e)),
    }
}

/// A collection of values of type `V` under keys of type `K`, kept by an
/// engine of type `B`.
pub struct Collection<B: Backend, K: Key, V: Codec> {
    backend: B,
    hub: EventHub<K, V>,
}

impl<B: Backend, K: Key, V: Codec> Collection<B, K, V> {
    /// What the engine holds: encoded values under encoded keys.
    pub closed spec fn raw(&self) -> RawMap {
        self.backend.entries()
    }

    /// The engine never fails.
    pub closed spec fn reliable(&self) -> bool {
        self.backend.reliable()
    }

    /// The subscribers and what waits for them.
    pub closed spec fn hub(&self) -> HubView<K, V> {
        self.hub@
    }

    /// A collection kept by `backend`, without subscribers.
    pub fn new(backend: B) -> (col: Self)
        ensures
            col.raw() == backend.entries(),
            col.reliable() == backend.reliable(),
            col.hub().boxes.len() == 0,
            col.hub().open,
    {
        Collection { backend, hub: EventHub::new() }
    }

    /// Opens the engine and the collection over it: the collection holds
    /// what the opened engine holds and has no subscribers; where the
    /// engine does not open, its message is handed on.
    pub fn open(conf: B::Conf) -> (r: KvResult<Self>)
        ensures
            match r {
                Ok(col) => {
                    &&& col.hub().boxes.len() == 0
                    &&& col.hub().open
                    &&& exists|backend: B|
                        #![trigger backend.entries()]
                        {
                            &&& call_ensures(B::open, (conf,), Ok::<B, String>(backend))
                            &&& col.raw() == backend.entries()
                            &&& col.reliable() == backend.reliable()
                        }
                },
                Err(KvError::BackendError(message)) => call_ensures(
                    B::open,
                    (conf,),
                    Err::<B, String>(message),
                ),
                Err(_) => false,
            },
    {
        match B::open(conf) {
            Ok(backend) => Ok(Collection::new(backend)),
            Err(e) => Err(KvError::BackendError(e)),
        }
    }

    /// The value stored under `key`: what `value_of_found` makes of the
    /// engine's answer.
    pub fn get(&self, key: &K) -> (r: KvResult<Option<V>>)
        ensures
            match r {
                Err(KvError::BackendError(_)) => !self.reliable(),
                _ => read_of(self.raw(), K::encoded(key@), r),
            },
            exists|found: Result<Option<Vec<u8>>, String>|
                looked_up(self.raw(), K::encoded(key@), self.reliable(), found)
                    && #[trigger] found_made(found, r),
    {
        let key_bytes = key.as_bytes();
        value_of_found(self.backend.get(key_bytes.as_slice()))
    }

    /// Hands the value stored under `key` to `f` and gives what `f` makes
    /// of it; `f` is not called where nothing is stored. The value is
    /// lent to `f` for the call only.
    pub fn get_ref<D, F: FnOnce(&V) -> KvResult<D>>(&self, key: &K, f: F) -> (r: KvResult<
        Option<D>,
    >)
        requires
            forall|value: &V| call_requires(f, (value,)),
        ensures
            (r matches Err(KvError::BackendError(_)) && !self.reliable()) || {
                let raw = self.raw();
                let k = K::encoded(key@);
                if !raw.contains_key(k) {
                    r matches Ok(None)
                } else {
                    match V::decoded(raw[k]) {
                        None => r matches Err(KvError::DeserError(message)) && shows(
                            message@,
                            raw[k],
                        ),
                        Some(stored) => exists|value: &V, made: KvResult<D>|
                            value@ == stored && call_ensures(f, (value,), made) && r == match made {
                                Ok(d) => Ok::<Option<D>, KvError>(Some(d)),
                                Err(e) => Err(e),
                            },
                    }
                }
            },
    {
        match self.get(key) {
            Ok(Some(value)) => {
                let made = f(&value);
                match made {
                    Ok(d) => Ok(Some(d)),
                    Err(e) => Err(e),
                }
            },
            Ok(None) => Ok(None),
            Err(e) => Err(e),
        }
    }

    /// How many keys are stored.
    pub fn count(&self) -> (r: KvResult<usize>)
        ensures
            match r {
                Ok(n) => self.raw().dom().finite() && self.raw().dom().len() == n,
                Err(e) => e is BackendError && !self.reliable(),
            },
    {
        match self.backend.count() {
            Ok(n) => Ok(n),
            Err(e) => Err(KvError::BackendError(e)),
        }
    }

    /// A walk in ascending key order over the entries, as they are now,
    /// whose keys lie between `lo` and `hi`. A later change to the
    /// collection does not reach the walk.
    pub fn iter(&self, lo: &KeyBound<K>, hi: &KeyBound<K>) -> (r: KvResult<KvIter<B::Iter, K, V>>)
        ensures
            match r {
                Ok(it) => {
                    &&& is_scan(it.remaining(), self.raw(), lo.raw(), hi.raw())
                    &&& it.remaining() == scan_of(self.raw(), lo.raw(), hi.raw())
                    &&& it.reliable() == self.reliable()
                },
                Err(e) => e is BackendError && !self.reliable(),
            },
    {
        let raw_lo = lo.to_raw();
        let raw_hi = hi.to_raw();
        match self.backend.scan(&raw_lo, &raw_hi) {
            Ok(it) => {
                proof {
                    lemma_scan_unique(it.remaining(), self.raw(), lo.raw(), hi.raw());
                }
                Ok(KvIter::new(it))
            },
            Err(e) => Err(KvError::BackendError(e)),
        }
    }

    /// The walk of `iter`, last entry first.
    pub fn iter_rev(&self, lo: &KeyBound<K>, hi: &KeyBound<K>) -> (r: KvResult<
        KvIter<B::Iter, K, V>,
    >)
        ensures
            match r {
                Ok(it) => {
                    &&& is_scan(it.remaining().reverse(), self.raw(), lo.raw(), hi.raw())
                    &&& it.remaining() == scan_of(self.raw(), lo.raw(), hi.raw()).reverse()
                    &&& it.reliable() == self.reliable()
                },
                Err(e) => e is BackendError && !self.reliable(),
            },
    {
        let raw_lo = lo.to_raw();
        let raw_hi = hi.to_raw();
        match self.backend.scan(&raw_lo, &raw_hi) {
            Ok(it) => {
                let ghost forward = it.remaining();
                proof {
                    lemma_scan_unique(forward, self.raw(), lo.raw(), hi.raw());
                }
                let back = it.reverse();
                assert(forward.reverse().reverse() =~= forward);
                Ok(KvIter::new(back))
            },
            Err(e) => Err(KvError::BackendError(e)),
        }
    }

    /// Registers a subscriber, which from now on is sent the events of
    /// every write, and gives its number. Its mailbox holds at most `limit`
    /// deliveries (`None`: any number).
    pub fn subscribe(&mut self, limit: Option<usize>) -> (r: KvResult<usize>)
        ensures
            final(self).raw() == old(self).raw(),
            final(self).reliable() == old(self).reliable(),
            match r {
                Ok(id) => {
                    &&& old(self).hub().open
                    &&& id == old(self).hub().boxes.len()
                    &&& final(self).hub() == old(self).hub().joined(limit)
                },
                Err(KvError::FailToSubscribe) => {
                    &&& !old(self).hub().open
                    &&& final(self).hub() == old(self).hub()
                },
                Err(_) => false,
            },
    {
        self.hub.subscribe(limit)
    }

    /// The oldest delivery that waits for subscriber `id`.
    pub fn try_recv(&mut self, id: usize) -> (r: Option<Arc<Vec<Event<K, V>>>>)
        ensures
            final(self).raw() == old(self).raw(),
            final(self).reliable() == old(self).reliable(),
            match r {
                Some(events) => {
                    &&& old(self).hub().has_mail(id as int)
                    &&& events@ == old(self).hub().boxes[id as int].queue[0]
                    &&& final(self).hub() == old(self).hub().taken(id as int)
                },
                None => {
                    &&& !old(self).hub().has_mail(id as int)
                    &&& final(self).hub() == old(self).hub()
                },
            },
    {
        self.hub.try_recv(id)
    }

    /// Subscriber `id` stops listening.
    pub fn unsubscribe(&mut self, id: usize)
        ensures
            final(self).raw() == old(self).raw(),
            final(self).reliable() == old(self).reliable(),
            (id as int) < old(self).hub().boxes.len() ==> final(self).hub()
                == old(self).hub().left(id as int),
            (id as int) >= old(self).hub().boxes.len() ==> final(self).hub() == old(self).hub(),
    {
        self.hub.unsubscribe(id)
    }

    /// Shuts the hub: no subscriber can be registered any more.
    pub fn shut_hub(&mut self)
        ensures
            final(self).raw() == old(self).raw(),
            final(self).reliable() == old(self).reliable(),
            final(self).hub() == (HubView { open: false, ..old(self).hub() }),
    {
        self.hub.shut()
    }

    /// Stores `value` under `key` and then tells the subscribers. Where
    /// the engine fails nothing is changed and nobody is told.
    pub fn upsert(&mut self, key: K, value: V) -> (r: KvResult<()>)
        ensures
            final(self).reliable() == old(self).reliable(),
            match r {
                Ok(_) => {
                    &&& final(self).raw() == old(self).raw().insert(
                        K::encoded(key@),
                        V::encoded(value@),
                    )
                    &&& final(self).hub() == old(self).hub().published(
                        seq![Event::Upsert { key, value }],
                    )
                },
                Err(e) => {
                    &&& e is BackendError
                    &&& !old(self).reliable()
                    &&& final(self).raw() == old(self).raw()
                    &&& final(self).hub() == old(self).hub()
                },
            },
    {
        let key_bytes = key.as_bytes();
        let value_bytes = value.as_bytes();
        match self.backend.put(key_bytes, value_bytes) {
            Ok(_) => {
                let mut events: Vec<Event<K, V>> = Vec::new();
                events.push(Event::Upsert { key, value });
                assert(events@ =~= seq![Event::Upsert { key, value }]);
                self.hub.publish(events);
                Ok(())
            },
            Err(e) => Err(KvError::BackendError(e)),
        }
    }

    /// Takes `key` out and then tells the subscribers.
    pub fn remove(&mut self, key: K) -> (r: KvResult<()>)
        ensures
            final(self).reliable() == old(self).reliable(),
            match r {
                Ok(_) => {
                    &&& final(self).raw() == old(self).raw().remove(K::encoded(key@))
                    &&& final(self).hub() == old(self).hub().published(
                        seq![Event::Remove { key }],
                    )
                },
                Err(e) => {
                    &&& e is BackendError
                    &&& !old(self).reliable()
                    &&& final(self).raw() == old(self).raw()
                    &&& final(self).hub() == old(self).hub()
                },
            },
    {
        let key_bytes = key.as_bytes();
        match self.backend.delete(key_bytes.as_slice()) {
            Ok(_) => {
                let mut events: Vec<Event<K, V>> = Vec::new();
                events.push(Event::Remove { key });
                assert(events@ =~= seq![Event::Remove { key }]);
                self.hub.publish(events);
                Ok(())
            },
            Err(e) => Err(KvError::BackendError(e)),
        }
    }

    /// Takes every key out and then tells the subscribers, with one event
    /// however many keys there were.
    pub fn clear(&mut self) -> (r: KvResult<()>)
        ensures
            final(self).reliable() == old(self).reliable(),
            match r {
                Ok(_) => {
                    &&& final(self).raw() == RawMap::empty()
                    &&& final(self).raw().dom().finite()
                    &&& final(self).raw().dom().len() == 0
                    &&& final(self).hub() == old(self).hub().published(
                        seq![Event::<K, V>::RemoveAll],
                    )
                },
                Err(e) => {
                    &&& e is BackendError
                    &&& !old(self).reliable()
                    &&& final(self).raw() == old(self).raw()
                    &&& final(self).hub() == old(self).hub()
                },
            },
    {
        match self.backend.clear() {
            Ok(_) => {
                let mut events: Vec<Event<K, V>> = Vec::new();
                events.push(Event::RemoveAll);
                assert(events@ =~= seq![Event::<K, V>::RemoveAll]);
                self.hub.publish(events);
                Ok(())
            },
            Err(e) => Err(KvError::BackendError(e)),
        }
    }

    /// A batch for this collection that stages nothing.
    pub fn new_batch(&self) -> (batch: Batch<K, V>)
        ensures
            batch@.len() == 0,
    {
        Batch::new()
    }

    /// Makes the staged changes in the order in which they were staged, all
    /// of them or none, and then sends the subscribers one event for each,
    /// in that order and in one delivery.
    pub fn write_batch(&mut self, batch: Batch<K, V>) -> (r: KvResult<()>)
        ensures
            final(self).reliable() == old(self).reliable(),
            match r {
                Ok(_) => {
                    &&& final(self).raw() == crate::backend::apply_ops(
                        old(self).raw(),
                        raw_ops(batch@),
                    )
                    &&& final(self).hub() == old(self).hub().published(batch@)
                },
                Err(e) => {
                    &&& e is BackendError
                    &&& !old(self).reliable()
                    &&& final(self).raw() == old(self).raw()
                    &&& final(self).hub() == old(self).hub()
                },
            },
    {
        match self.write_quietly(&batch) {
            Ok(_) => {
                self.announce(batch);
                Ok(())
            },
            Err(e) => Err(e),
        }
    }

    /// The engine's own walk over the stored entries whose keys lie
    /// between `lo` and `hi`.
    pub(crate) fn raw_scan(&self, lo: &RawBound, hi: &RawBound) -> (r: Result<B::Iter, String>)
        ensures
            match r {
                Ok(it) => is_scan(it.remaining(), self.raw(), lo@, hi@) && it.reliable()
                    == self.reliable(),
                Err(_) => !self.reliable(),
            },
    {
        self.backend.scan(lo, hi)
    }

    /// The changes that take `batch` back once it is written. Nothing is
    /// written here.
    pub(crate) fn undo_of(&self, batch: &Batch<K, V>) -> (r: KvResult<Vec<RawOp>>)
        ensures
            match r {
                Ok(undo) => takes_back(ops_of(undo@), self.raw(), raw_ops(batch@)),
                Err(e) => e is BackendError && !self.reliable(),
            },
    {
        let raw = batch.to_raw();
        match undo_of(&self.backend, &raw) {
            Ok(undo) => Ok(undo),
            Err(e) => Err(KvError::BackendError(e)),
        }
    }

    /// Makes the staged changes, all of them or none, and tells nobody.
    pub(crate) fn write_quietly(&mut self, batch: &Batch<K, V>) -> (r: KvResult<()>)
        ensures
            final(self).reliable() == old(self).reliable(),
            final(self).hub() == old(self).hub(),
            match r {
                Ok(_) => final(self).raw() == crate::backend::apply_ops(
                    old(self).raw(),
                    raw_ops(batch@),
                ),
                Err(e) => {
                    &&& e is BackendError
                    &&& !old(self).reliable()
                    &&& final(self).raw() == old(self).raw()
                },
            },
    {
        let raw = batch.to_raw();
        match self.backend.apply_batch(&raw) {
            Ok(_) => Ok(()),
            Err(e) => Err(KvError::BackendError(e)),
        }
    }

    /// Makes the changes `undo`, all of them or none, and tells nobody.
    pub(crate) fn take_back(&mut self, undo: &Vec<RawOp>) -> (r: KvResult<()>)
        ensures
            final(self).reliable() == old(self).reliable(),
            final(self).hub() == old(self).hub(),
            match r {
                Ok(_) => final(self).raw() == crate::backend::apply_ops(
                    old(self).raw(),
                    ops_of(undo@),
                ),
                Err(e) => {
                    &&& e is BackendError
                    &&& !old(self).reliable()
                    &&& final(self).raw() == old(self).raw()
                },
            },
    {
        match self.backend.apply_batch(undo) {
            Ok(_) => Ok(()),
            Err(e) => Err(KvError::BackendError(e)),
        }
    }

    /// Sends the subscribers one event for each change of a batch that was
    /// written, in one delivery.
    pub(crate) fn announce(&mut self, batch: Batch<K, V>)
        ensures
            final(self).reliable() == old(self).reliable(),
            final(self).raw() == old(self).raw(),
            final(self).hub() == old(self).hub().published(batch@),
    {
        self.hub.publish(batch.into_events());
    }
}

} // verus!
