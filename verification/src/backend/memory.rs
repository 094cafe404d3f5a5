//! The reference engine: entries held in memory, sorted by key.

use crate::backend::{
    agree_in, apply_op, apply_ops, ascending, in_range, is_scan, ops_of, pairs_of, Backend,
    BackendIter, BoundView, OpView, RawBound, RawEntry, RawMap, RawOp, ReversibleIter,
};
use crate::lex::{
    bytes_le, bytes_lt, compare_bytes, lemma_lt_irreflexive, lemma_lt_total, lemma_lt_transitive,
    Order,
};
use vstd::prelude::*;
use vstd::slice::slice_to_vec;

verus! {

/// The map that a run of entries stands for: each key with the value that
/// stands beside it.
pub open spec fn map_of(s: Seq<RawEntry>) -> RawMap {
    Map::new(
        |k: Seq<u8>| exists|i: int| 0 <= i < s.len() && (#[trigger] s[i]).0 == k,
        |k: Seq<u8>| s[choose|i: int| 0 <= i < s.len() && (#[trigger] s[i]).0 == k].1,
    )
}

/// In an ascending run every key occurs once, and the map holds beside it
/// the value that the run holds.
pub proof fn lemma_map_of_index(s: Seq<RawEntry>, i: int)
    requires
        ascending(s),
        0 <= i < s.len(),
    ensures
        map_of(s).contains_key(s[i].0),
        map_of(s)[s[i].0] == s[i].1,
        forall|j: int| 0 <= j < s.len() && j != i ==> (#[trigger] s[j]).0 != s[i].0,
{
    assert forall|j: int| 0 <= j < s.len() && j != i implies (#[trigger] s[j]).0 != s[i].0 by {
        lemma_lt_irreflexive(s[i].0);
        if j < i {
            assert(bytes_lt(s[j].0, s[i].0));
        } else {
            assert(bytes_lt(s[i].0, s[j].0));
        }
    }
    let c = choose|j: int| 0 <= j < s.len() && (#[trigger] s[j]).0 == s[i].0;
    assert(c == i);
}

/// The entries of a scan, taken as a map, hold between the ends of the
/// scan what the scanned map holds there.
pub proof fn lemma_scan_as_map(s: Seq<RawEntry>, m: RawMap, lo: BoundView, hi: BoundView)
    requires
        is_scan(s, m, lo, hi),
    ensures
        agree_in(map_of(s), m, lo, hi),
{
    assert forall|k: Seq<u8>| #[trigger] in_range(k, lo, hi) implies map_of(s).contains_key(k)
        == m.contains_key(k) && (map_of(s).contains_key(k) ==> map_of(s)[k] == m[k]) by {
        if map_of(s).contains_key(k) {
            let i = choose|i: int| 0 <= i < s.len() && (#[trigger] s[i]).0 == k;
            lemma_map_of_index(s, i);
            assert(m.contains_key(s[i].0) && m[s[i].0] == s[i].1);
        }
        if m.contains_key(k) {
            assert(m.contains_key(k) && in_range(k, lo, hi));
        }
    }
}

/// The position at which `key` stands or would have to stand: all keys
/// before it are below `key`, none from it on is.
pub open spec fn is_lower_bound(s: Seq<RawEntry>, key: Seq<u8>, at: int) -> bool {
    &&& 0 <= at <= s.len()
    &&& forall|i: int| 0 <= i < at ==> bytes_lt((#[trigger] s[i]).0, key)
    &&& forall|i: int| at <= i < s.len() ==> !bytes_lt((#[trigger] s[i]).0, key)
}

/// A key is stored exactly if it stands at its position.
pub proof fn lemma_found_at(s: Seq<RawEntry>, key: Seq<u8>, at: int)
    requires
        ascending(s),
        is_lower_bound(s, key, at),
    ensures
        map_of(s).contains_key(key) <==> (at < s.len() && s[at].0 == key),
{
    if map_of(s).contains_key(key) {
        let i = choose|i: int| 0 <= i < s.len() && (#[trigger] s[i]).0 == key;
        lemma_lt_irreflexive(key);
        assert(i >= at);
        if i > at {
            assert(bytes_lt(s[at].0, s[i].0));
            assert(!bytes_lt(s[at].0, key));
        }
    }
}

/// Putting a new key at its position keeps the order and adds the entry.
pub proof fn lemma_insert_at(s: Seq<RawEntry>, key: Seq<u8>, value: Seq<u8>, at: int)
    requires
        ascending(s),
        is_lower_bound(s, key, at),
        !(at < s.len() && s[at].0 == key),
    ensures
        ascending(s.insert(at, (key, value))),
        map_of(s.insert(at, (key, value))) == map_of(s).insert(key, value),
{
    let t = s.insert(at, (key, value));
    assert forall|i: int, j: int| 0 <= i < j < t.len() implies bytes_lt(
        #[trigger] t[i].0,
        #[trigger] t[j].0,
    ) by {
        if i == at {
            assert(t[j] == s[j - 1]);
            lemma_lt_total(s[j - 1].0, key);
            if j - 1 > at {
                assert(bytes_lt(s[at].0, s[j - 1].0));
                if bytes_lt(s[j - 1].0, key) {
                    lemma_lt_transitive(s[at].0, s[j - 1].0, key);
                }
            }
            if s[j - 1].0 == key {
                lemma_lt_irreflexive(key);
                assert(bytes_lt(s[at].0, key));
            }
        } else if j == at {
            assert(t[i] == s[i]);
        } else {
            let a = if i < at { i } else { i - 1 };
            let b = if j < at { j } else { j - 1 };
            assert(t[i] == s[a] && t[j] == s[b]);
        }
    }
    assert forall|k: Seq<u8>| map_of(t).contains_key(k) <==> map_of(s).insert(
        key,
        value,
    ).contains_key(k) by {
        if map_of(t).contains_key(k) {
            let i = choose|i: int| 0 <= i < t.len() && (#[trigger] t[i]).0 == k;
            if i < at {
                assert(s[i].0 == k);
            } else if i > at {
                assert(s[i - 1].0 == k);
            }
        }
        if map_of(s).contains_key(k) {
            let i = choose|i: int| 0 <= i < s.len() && (#[trigger] s[i]).0 == k;
            let j = if i < at { i } else { i + 1 };
            assert(t[j].0 == k);
        }
        if k == key {
            assert(t[at].0 == k);
        }
    }
    assert forall|k: Seq<u8>| map_of(t).contains_key(k) implies map_of(t)[k] == map_of(s).insert(
        key,
        value,
    )[k] by {
        let i = choose|i: int| 0 <= i < t.len() && (#[trigger] t[i]).0 == k;
        lemma_map_of_index(t, i);
        lemma_lt_irreflexive(key);
        if i < at {
            assert(t[i] == s[i]);
            lemma_map_of_index(s, i);
        } else if i > at {
            assert(t[i] == s[i - 1]);
            assert(t[at].0 == key);
            lemma_map_of_index(s, i - 1);
        }
    }
    assert(map_of(t) =~= map_of(s).insert(key, value));
}

/// Writing a new value beside a stored key keeps the order and changes
/// that entry alone.
pub proof fn lemma_update_at(s: Seq<RawEntry>, key: Seq<u8>, value: Seq<u8>, at: int)
    requires
        ascending(s),
        0 <= at < s.len(),
        s[at].0 == key,
    ensures
        ascending(s.update(at, (key, value))),
        map_of(s.update(at, (key, value))) == map_of(s).insert(key, value),
{
    let t = s.update(at, (key, value));
    assert forall|i: int, j: int| 0 <= i < j < t.len() implies bytes_lt(
        #[trigger] t[i].0,
        #[trigger] t[j].0,
    ) by {
        assert(t[i].0 == s[i].0 && t[j].0 == s[j].0);
    }
    assert forall|k: Seq<u8>| map_of(t).contains_key(k) <==> map_of(s).insert(
        key,
        value,
    ).contains_key(k) by {
        if map_of(t).contains_key(k) {
            let i = choose|i: int| 0 <= i < t.len() && (#[trigger] t[i]).0 == k;
            assert(s[i].0 == k);
        }
        if map_of(s).contains_key(k) {
            let i = choose|i: int| 0 <= i < s.len() && (#[trigger] s[i]).0 == k;
            assert(t[i].0 == k);
        }
        if k == key {
            assert(t[at].0 == k);
        }
    }
    assert forall|k: Seq<u8>| map_of(t).contains_key(k) implies map_of(t)[k] == map_of(s).insert(
        key,
        value,
    )[k] by {
        let i = choose|i: int| 0 <= i < t.len() && (#[trigger] t[i]).0 == k;
        lemma_map_of_index(t, i);
        lemma_map_of_index(s, i);
    }
    assert(map_of(t) =~= map_of(s).insert(key, value));
}

/// Taking an entry out keeps the order and removes its key alone.
pub proof fn lemma_remove_at(s: Seq<RawEntry>, at: int)
    requires
        ascending(s),
        0 <= at < s.len(),
    ensures
        ascending(s.remove(at)),
        map_of(s.remove(at)) == map_of(s).remove(s[at].0),
{
    let t = s.remove(at);
    let key = s[at].0;
    assert forall|i: int, j: int| 0 <= i < j < t.len() implies bytes_lt(
        #[trigger] t[i].0,
        #[trigger] t[j].0,
    ) by {
        let a = if i < at { i } else { i + 1 };
        let b = if j < at { j } else { j + 1 };
        assert(t[i] == s[a] && t[j] == s[b]);
    }
    lemma_map_of_index(s, at);
    assert forall|k: Seq<u8>| map_of(t).contains_key(k) <==> map_of(s).remove(key).contains_key(
        k,
    ) by {
        if map_of(t).contains_key(k) {
            let i = choose|i: int| 0 <= i < t.len() && (#[trigger] t[i]).0 == k;
            let a = if i < at { i } else { i + 1 };
            assert(s[a].0 == k);
        }
        if map_of(s).contains_key(k) && k != key {
            let i = choose|i: int| 0 <= i < s.len() && (#[trigger] s[i]).0 == k;
            let j = if i < at { i } else { i - 1 };
            assert(t[j].0 == k);
        }
    }
    assert forall|k: Seq<u8>| map_of(t).contains_key(k) implies map_of(t)[k] == map_of(s).remove(
        key,
    )[k] by {
        let i = choose|i: int| 0 <= i < t.len() && (#[trigger] t[i]).0 == k;
        lemma_map_of_index(t, i);
        let a = if i < at { i } else { i + 1 };
        lemma_map_of_index(s, a);
    }
    assert(map_of(t) =~= map_of(s).remove(key));
}

/// An ascending run stands for a finite map with as many keys as the run
/// has entries.
pub proof fn lemma_map_of_len(s: Seq<RawEntry>)
    requires
        ascending(s),
    ensures
        map_of(s).dom().finite(),
        map_of(s).dom().len() == s.len(),
    decreases s.len(),
{
    if s.len() == 0 {
        assert(map_of(s).dom() =~= Set::<Seq<u8>>::empty());
    } else {
        let at = s.len() - 1;
        lemma_remove_at(s, at);
        lemma_map_of_len(s.remove(at));
        lemma_map_of_index(s, at);
        assert(map_of(s).dom() =~= map_of(s.remove(at)).dom().insert(s[at].0));
    }
}

/// The engine that keeps its entries in memory. It never fails.
pub struct Mem {
    sorted: Vec<(Vec<u8>, Vec<u8>)>,
}

/// What the in-memory engine is opened with: nothing.
#[derive(Clone, Copy, Debug, Default)]
pub struct MemConf {}

/// A walk over entries that were copied out of the in-memory engine.
pub struct MemIter {
    taken: Vec<(Vec<u8>, Vec<u8>)>,
    front: usize,
    back: usize,
    backward: bool,
}

impl MemIter {
    #[verifier::type_invariant]
    spec fn inv(self) -> bool {
        self.front <= self.back <= self.taken@.len()
    }

    /// The entries between the two ends, in the order of the walk.
    pub closed spec fn window(self) -> Seq<RawEntry> {
        let w = pairs_of(self.taken@).subrange(self.front as int, self.back as int);
        if self.backward {
            w.reverse()
        } else {
            w
        }
    }
}

/// A copy of a byte vector.
fn copy_of(bytes: &Vec<u8>) -> (copy: Vec<u8>)
    ensures
        copy@ == bytes@,
{
    slice_to_vec(bytes.as_slice())
}

impl BackendIter for MemIter {
    closed spec fn remaining(&self) -> Seq<RawEntry> {
        self.window()
    }

    open spec fn reliable(&self) -> bool {
        true
    }

    fn next_entry(&mut self) -> (r: Option<Result<(Vec<u8>, Vec<u8>), String>>)
        ensures
            r is Some ==> r->Some_0 is Ok,
    {
        proof {
            use_type_invariant(&*self);
        }
        if self.front >= self.back {
            return None;
        }
        let ghost before = pairs_of(self.taken@).subrange(self.front as int, self.back as int);
        if self.backward {
            let at: usize = self.back - 1;
            let key = copy_of(&self.taken[at].0);
            let value = copy_of(&self.taken[at].1);
            self.back = at;
            proof {
                let after = pairs_of(self.taken@).subrange(self.front as int, self.back as int);
                assert(before.reverse()[0] == (key@, value@));
                assert(after.reverse() =~= before.reverse().drop_first());
            }
            Some(Ok((key, value)))
        } else {
            let at: usize = self.front;
            let key = copy_of(&self.taken[at].0);
            let value = copy_of(&self.taken[at].1);
            self.front = at + 1;
            proof {
                let after = pairs_of(self.taken@).subrange(self.front as int, self.back as int);
                assert(before[0] == (key@, value@));
                assert(after =~= before.drop_first());
            }
            Some(Ok((key, value)))
        }
    }
}

impl ReversibleIter for MemIter {
    fn reverse(self) -> (r: Self) {
        proof {
            use_type_invariant(&self);
        }
        let ghost w = pairs_of(self.taken@).subrange(self.front as int, self.back as int);
        let r = MemIter {
            taken: self.taken,
            front: self.front,
            back: self.back,
            backward: !self.backward,
        };
        assert(w.reverse().reverse() =~= w);
        r
    }
}

impl Mem {
    #[verifier::type_invariant]
    spec fn inv(self) -> bool {
        ascending(pairs_of(self.sorted@))
    }

    /// The stored entries in ascending order of their keys.
    pub closed spec fn run(self) -> Seq<RawEntry> {
        pairs_of(self.sorted@)
    }

    /// An engine that holds nothing.
    pub fn new() -> (mem: Mem)
        ensures
            mem.entries() == RawMap::empty(),
    {
        let mem = Mem { sorted: Vec::new() };
        assert(map_of(pairs_of(mem.sorted@)) =~= RawMap::empty());
        mem
    }

    /// An engine that holds the entries which a walk in ascending order
    /// has still to give, all of them. Where the walk fails, no engine is
    /// made and the failure is handed on.
    pub fn gathered<BI: BackendIter>(walk: BI) -> (r: Result<Mem, String>)
        requires
            ascending(walk.remaining()),
        ensures
            match r {
                Ok(mem) => mem.entries() == map_of(walk.remaining()),
                Err(_) => !walk.reliable(),
            },
    {
        let ghost all = walk.remaining();
        let mut rest = walk;
        let mut taken: Vec<(Vec<u8>, Vec<u8>)> = Vec::new();
        assert(pairs_of(taken@) =~= all.take(0));
        loop
            invariant
                rest.reliable() == walk.reliable(),
                all == walk.remaining(),
                ascending(all),
                taken@.len() <= all.len(),
                rest.remaining() == all.skip(taken@.len() as int),
                pairs_of(taken@) == all.take(taken@.len() as int),
            decreases rest.remaining().len(),
        {
            let ghost n = taken@.len() as int;
            match rest.next_entry() {
                None => {
                    assert(all.take(n) =~= all);
                    return Ok(Mem { sorted: taken });
                },
                Some(Ok((key, value))) => {
                    assert(all.skip(n)[0] == all[n]);
                    assert(all.skip(n).drop_first() =~= all.skip(n + 1));
                    taken.push((key, value));
                    assert(pairs_of(taken@) =~= all.take(n + 1));
                },
                Some(Err(e)) => {
                    return Err(e);
                },
            }
        }
    }

    /// The position at which `key` stands or would have to stand.
    fn lower_bound(&self, key: &[u8]) -> (at: usize)
        ensures
            is_lower_bound(self.run(), key@, at as int),
    {
        proof {
            use_type_invariant(self);
        }
        let ghost s = pairs_of(self.sorted@);
        let mut lo: usize = 0;
        let mut hi: usize = self.sorted.len();
        while lo < hi
            invariant
                s == pairs_of(self.sorted@),
                ascending(s),
                0 <= lo <= hi <= s.len(),
                forall|i: int| 0 <= i < lo ==> bytes_lt((#[trigger] s[i]).0, key@),
                forall|i: int| hi <= i < s.len() ==> !bytes_lt((#[trigger] s[i]).0, key@),
            decreases hi - lo,
        {
            let mid: usize = lo + (hi - lo) / 2;
            let order = compare_bytes(self.sorted[mid].0.as_slice(), key);
            assert(s[mid as int].0 == self.sorted[mid as int].0@);
            if order == Order::Less {
                assert forall|i: int| 0 <= i < mid + 1 implies bytes_lt(
                    (#[trigger] s[i]).0,
                    key@,
                ) by {
                    if i < mid {
                        assert(bytes_lt(s[i].0, s[mid as int].0));
                        lemma_lt_transitive(s[i].0, s[mid as int].0, key@);
                    }
                }
                lo = mid + 1;
            } else {
                assert forall|i: int| mid <= i < s.len() implies !bytes_lt(
                    (#[trigger] s[i]).0,
                    key@,
                ) by {
                    if i > mid && bytes_lt(s[i].0, key@) {
                        assert(bytes_lt(s[mid as int].0, s[i].0));
                        lemma_lt_transitive(s[mid as int].0, s[i].0, key@);
                    }
                }
                hi = mid;
            }
        }
        lo
    }

    /// The position of the first entry that is not below the lower end.
    fn first_in(&self, lo: &RawBound) -> (at: usize)
        ensures
            at <= self.run().len(),
            forall|i: int|
                0 <= i < self.run().len() ==> (i >= at <==> crate::backend::above_lower(
                    (#[trigger] self.run()[i]).0,
                    lo@,
                )),
    {
        proof {
            use_type_invariant(self);
        }
        let ghost s = self.run();
        match lo {
            RawBound::Unbounded => 0,
            RawBound::Included(k) => {
                let at = self.lower_bound(k.as_slice());
                assert forall|i: int| 0 <= i < s.len() implies (i >= at <==> bytes_le(
                    k@,
                    (#[trigger] s[i]).0,
                )) by {
                    lemma_lt_total(s[i].0, k@);
                }
                at
            },
            RawBound::Excluded(k) => {
                let at = self.lower_bound(k.as_slice());
                if at < self.sorted.len() {
                    let order = compare_bytes(self.sorted[at].0.as_slice(), k.as_slice());
                    assert(s[at as int].0 == self.sorted[at as int].0@);
                    if order == Order::Equal {
                        assert forall|i: int| 0 <= i < s.len() implies (i >= at + 1 <==> bytes_lt(
                            k@,
                            (#[trigger] s[i]).0,
                        )) by {
                            lemma_lt_total(s[i].0, k@);
                            lemma_lt_irreflexive(k@);
                            if i > at {
                                assert(bytes_lt(s[at as int].0, s[i].0));
                            }
                        }
                        return at + 1;
                    }
                }
                assert forall|i: int| 0 <= i < s.len() implies (i >= at <==> bytes_lt(
                    k@,
                    (#[trigger] s[i]).0,
                )) by {
                    lemma_lt_total(s[i].0, k@);
                    if i > at && s[i].0 == k@ {
                        assert(bytes_lt(s[at as int].0, s[i].0));
                        lemma_lt_total(s[at as int].0, k@);
                    }
                }
                at
            },
        }
    }

    /// The position behind the last entry that is not above the upper end.
    fn end_in(&self, hi: &RawBound) -> (at: usize)
        ensures
            at <= self.run().len(),
            forall|i: int|
                0 <= i < self.run().len() ==> (i < at <==> crate::backend::below_upper(
                    (#[trigger] self.run()[i]).0,
                    hi@,
                )),
    {
        proof {
            use_type_invariant(self);
        }
        let ghost s = self.run();
        match hi {
            RawBound::Unbounded => self.sorted.len(),
            RawBound::Excluded(k) => {
                let at = self.lower_bound(k.as_slice());
                at
            },
            RawBound::Included(k) => {
                let at = self.lower_bound(k.as_slice());
                if at < self.sorted.len() {
                    let order = compare_bytes(self.sorted[at].0.as_slice(), k.as_slice());
                    assert(s[at as int].0 == self.sorted[at as int].0@);
                    if order == Order::Equal {
                        assert forall|i: int| 0 <= i < s.len() implies (i < at + 1 <==> bytes_le(
                            (#[trigger] s[i]).0,
                            k@,
                        )) by {
                            lemma_lt_total(s[i].0, k@);
                            lemma_lt_irreflexive(k@);
                            if i > at {
                                assert(bytes_lt(s[at as int].0, s[i].0));
                            }
                        }
                        return at + 1;
                    }
                }
                assert forall|i: int| 0 <= i < s.len() implies (i < at <==> bytes_le(
                    (#[trigger] s[i]).0,
                    k@,
                )) by {
                    lemma_lt_total(s[i].0, k@);
                    if i > at && s[i].0 == k@ {
                        assert(bytes_lt(s[at as int].0, s[i].0));
                        lemma_lt_total(s[at as int].0, k@);
                    }
                }
                at
            },
        }
    }

    /// Makes one change.
    fn apply(&mut self, op: &RawOp)
        ensures
            final(self).entries() == apply_op(old(self).entries(), op@),
    {
        match op {
            RawOp::Upsert(k, v) => {
                let _ = self.put(copy_of(k), copy_of(v));
            },
            RawOp::Remove(k) => {
                let _ = self.delete(k.as_slice());
            },
            RawOp::RemoveAll => {
                let _ = self.clear();
            },
        }
    }
}

impl Backend for Mem {
    type Conf = MemConf;

    type Iter = MemIter;

    closed spec fn entries(&self) -> RawMap {
        map_of(pairs_of(self.sorted@))
    }

    open spec fn reliable(&self) -> bool {
        true
    }

    fn open(conf: MemConf) -> (r: Result<Self, String>)
        ensures
            r matches Ok(mem) && mem.entries() == RawMap::empty(),
    {
        Ok(Mem::new())
    }

    fn get(&self, key: &[u8]) -> (r: Result<Option<Vec<u8>>, String>)
        ensures
            r is Ok,
    {
        proof {
            use_type_invariant(self);
        }
        let at = self.lower_bound(key);
        proof {
            lemma_found_at(self.run(), key@, at as int);
        }
        if at < self.sorted.len() {
            let order = compare_bytes(self.sorted[at].0.as_slice(), key);
            if order == Order::Equal {
                proof {
                    lemma_map_of_index(self.run(), at as int);
                }
                return Ok(Some(copy_of(&self.sorted[at].1)));
            }
        }
        Ok(None)
    }

    fn put(&mut self, key: Vec<u8>, value: Vec<u8>) -> (r: Result<(), String>)
        ensures
            r is Ok,
    {
        proof {
            use_type_invariant(&*self);
        }
        let at = self.lower_bound(key.as_slice());
        let ghost s = self.run();
        if at < self.sorted.len() {
            let order = compare_bytes(self.sorted[at].0.as_slice(), key.as_slice());
            if order == Order::Equal {
                proof {
                    lemma_update_at(s, key@, value@, at as int);
                    assert(pairs_of(self.sorted@.update(at as int, (key, value))) =~= s.update(
                        at as int,
                        (key@, value@),
                    ));
                }
                let mut sorted: Vec<(Vec<u8>, Vec<u8>)> = Vec::new();
                std::mem::swap(&mut sorted, &mut self.sorted);
                sorted.set(at, (key, value));
                self.sorted = sorted;
                return Ok(());
            }
        }
        proof {
            lemma_insert_at(s, key@, value@, at as int);
            assert(pairs_of(self.sorted@.insert(at as int, (key, value))) =~= s.insert(
                at as int,
                (key@, value@),
            ));
        }
        let mut sorted: Vec<(Vec<u8>, Vec<u8>)> = Vec::new();
        std::mem::swap(&mut sorted, &mut self.sorted);
        sorted.insert(at, (key, value));
        self.sorted = sorted;
        Ok(())
    }

    fn delete(&mut self, key: &[u8]) -> (r: Result<(), String>)
        ensures
            r is Ok,
    {
        proof {
            use_type_invariant(&*self);
        }
        let at = self.lower_bound(key);
        let ghost s = self.run();
        proof {
            lemma_found_at(s, key@, at as int);
        }
        if at < self.sorted.len() {
            let order = compare_bytes(self.sorted[at].0.as_slice(), key);
            if order == Order::Equal {
                proof {
                    lemma_remove_at(s, at as int);
                    assert(pairs_of(self.sorted@.remove(at as int)) =~= s.remove(at as int));
                }
                let mut sorted: Vec<(Vec<u8>, Vec<u8>)> = Vec::new();
                std::mem::swap(&mut sorted, &mut self.sorted);
                let _ = sorted.remove(at);
                self.sorted = sorted;
                return Ok(());
            }
        }
        assert(map_of(s).remove(key@) =~= map_of(s));
        Ok(())
    }

    fn clear(&mut self) -> (r: Result<(), String>)
        ensures
            r is Ok,
    {
        proof {
            assert(pairs_of(Seq::<(Vec<u8>, Vec<u8>)>::empty()) =~= Seq::<RawEntry>::empty());
            assert(map_of(Seq::<RawEntry>::empty()) =~= RawMap::empty());
        }
        self.sorted = Vec::new();
        Ok(())
    }

    fn count(&self) -> (r: Result<usize, String>)
        ensures
            r is Ok,
    {
        proof {
            use_type_invariant(self);
            lemma_map_of_len(self.run());
        }
        Ok(self.sorted.len())
    }

    fn scan(&self, lo: &RawBound, hi: &RawBound) -> (r: Result<MemIter, String>)
        ensures
            r is Ok,
    {
        proof {
            use_type_invariant(self);
        }
        let ghost s = self.run();
        let first = self.first_in(lo);
        let end = self.end_in(hi);
        let mut taken: Vec<(Vec<u8>, Vec<u8>)> = Vec::new();
        let mut i: usize = first;
        assert(pairs_of(taken@) =~= s.subrange(first as int, first as int));
        while i < end
            invariant
                s == pairs_of(self.sorted@),
                first <= i,
                i <= end || first >= end,
                first >= end ==> i == first,
                end <= s.len(),
                first <= s.len(),
                i <= s.len(),
                pairs_of(taken@) == s.subrange(first as int, i as int),
            decreases end - i,
        {
            let key = copy_of(&self.sorted[i].0);
            let value = copy_of(&self.sorted[i].1);
            proof {
                assert(s[i as int] == (key@, value@));
                assert(pairs_of(taken@.push((key, value))) =~= pairs_of(taken@).push(
                    (key@, value@),
                ));
                assert(s.subrange(first as int, i as int).push(s[i as int]) =~= s.subrange(
                    first as int,
                    i as int + 1,
                ));
            }
            taken.push((key, value));
            i = i + 1;
        }
        let n = taken.len();
        let it = MemIter { taken, front: 0, back: n, backward: false };
        proof {
            let w = pairs_of(it.taken@);
            assert(w.subrange(0, n as int) =~= w);
            assert(it.remaining() == w);
            assert(forall|j: int| 0 <= j < w.len() ==> w[j] == s[j + first]);
            assert(first < end ==> w.len() == end - first);
            assert(first >= end ==> w.len() == 0);
            assert forall|k: Seq<u8>| #[trigger]
                map_of(s).contains_key(k) && in_range(k, lo@, hi@) implies exists|j: int|
                0 <= j < w.len() && (#[trigger] w[j]).0 == k by {
                let c = choose|c: int| 0 <= c < s.len() && (#[trigger] s[c]).0 == k;
                assert(first <= c < end);
                assert(w[c - first] == s[c]);
            }
            assert forall|j: int| 0 <= j < w.len() implies in_range((#[trigger] w[j]).0, lo@, hi@)
                && map_of(s).contains_key(w[j].0) && map_of(s)[w[j].0] == w[j].1 by {
                assert(w[j] == s[j + first]);
                lemma_map_of_index(s, j + first);
            }
            assert forall|a: int, b: int| 0 <= a < b < w.len() implies bytes_lt(
                #[trigger] w[a].0,
                #[trigger] w[b].0,
            ) by {
                assert(w[a] == s[a + first] && w[b] == s[b + first]);
            }
        }
        Ok(it)
    }

    fn apply_batch(&mut self, ops: &Vec<RawOp>) -> (r: Result<(), String>)
        ensures
            r is Ok,
    {
        let mut i: usize = 0;
        assert(ops_of(ops@).subrange(0, 0) =~= Seq::<OpView>::empty());
        while i < ops.len()
            invariant
                i <= ops@.len(),
                self.entries() == apply_ops(old(self).entries(), ops_of(ops@).subrange(0, i as int)),
            decreases ops.len() - i,
        {
            self.apply(&ops[i]);
            proof {
                let done = ops_of(ops@).subrange(0, i as int + 1);
                assert(done.drop_last() =~= ops_of(ops@).subrange(0, i as int));
                assert(done.last() == ops[i as int]@);
            }
            i = i + 1;
        }
        assert(ops_of(ops@).subrange(0, i as int) =~= ops_of(ops@));
        Ok(())
    }

    fn close(self) {
    }
}

} // verus!
