//! The byte-level contract between a collection and the storage engine
//! under it.

pub mod flaky;
pub mod memory;
pub mod undo;

use crate::lex::{bytes_le, bytes_lt, lemma_lt_irreflexive, lemma_lt_transitive};
use vstd::prelude::*;

verus! {

/// What an engine holds: byte values under byte keys.
pub type RawMap = Map<Seq<u8>, Seq<u8>>;

/// One stored entry, key first.
pub type RawEntry = (Seq<u8>, Seq<u8>);

/// One end of a range of keys.
#[derive(Clone, Debug, PartialEq, Eq)]
pub enum RawBound {
    /// No limit on this side.
    Unbounded,
    /// The key itself is in the range.
    Included(Vec<u8>),
    /// The key itself is outside the range.
    Excluded(Vec<u8>),
}

/// One end of a range of keys, in the model.
pub enum BoundView {
    Unbounded,
    Included(Seq<u8>),
    Excluded(Seq<u8>),
}

impl View for RawBound {
    type V = BoundView;

    open spec fn view(&self) -> BoundView {
        match self {
            RawBound::Unbounded => BoundView::Unbounded,
            RawBound::Included(k) => BoundView::Included(k@),
            RawBound::Excluded(k) => BoundView::Excluded(k@),
        }
    }
}

/// One change to an engine's contents.
#[derive(Clone, Debug, PartialEq, Eq)]
pub enum RawOp {
    /// Store the value under the key, whatever was there.
    Upsert(Vec<u8>, Vec<u8>),
    /// Take the key out, if it is there.
    Remove(Vec<u8>),
    /// Take every key out.
    RemoveAll,
}

/// One change to an engine's contents, in the model.
pub enum OpView {
    Upsert(Seq<u8>, Seq<u8>),
    Remove(Seq<u8>),
    RemoveAll,
}

impl View for RawOp {
    type V = OpView;

    open spec fn view(&self) -> OpView {
        match self {
            RawOp::Upsert(k, v) => OpView::Upsert(k@, v@),
            RawOp::Remove(k) => OpView::Remove(k@),
            RawOp::RemoveAll => OpView::RemoveAll,
        }
    }
}

/// `key` is not below the lower end `lo`.
pub open spec fn above_lower(key: Seq<u8>, lo: BoundView) -> bool {
    match lo {
        BoundView::Unbounded => true,
        BoundView::Included(b) => bytes_le(b, key),
        BoundView::Excluded(b) => bytes_lt(b, key),
    }
}

/// `key` is not above the upper end `hi`.
pub open spec fn below_upper(key: Seq<u8>, hi: BoundView) -> bool {
    match hi {
        BoundView::Unbounded => true,
        BoundView::Included(b) => bytes_le(key, b),
        BoundView::Excluded(b) => bytes_lt(key, b),
    }
}

/// `key` lies between `lo` and `hi`.
pub open spec fn in_range(key: Seq<u8>, lo: BoundView, hi: BoundView) -> bool {
    above_lower(key, lo) && below_upper(key, hi)
}

/// The keys of `s` ascend strictly.
pub open spec fn ascending(s: Seq<RawEntry>) -> bool {
    forall|i: int, j: int| 0 <= i < j < s.len() ==> bytes_lt(#[trigger] s[i].0, #[trigger] s[j].0)
}

/// `s` lists the entries of `m` whose keys lie between `lo` and `hi`: each
/// of them once, nothing else, in ascending order of the keys.
pub open spec fn is_scan(s: Seq<RawEntry>, m: RawMap, lo: BoundView, hi: BoundView) -> bool {
    &&& ascending(s)
    &&& forall|i: int|
        0 <= i < s.len() ==> in_range((#[trigger] s[i]).0, lo, hi) && m.contains_key(s[i].0)
            && m[s[i].0] == s[i].1
    &&& forall|k: Seq<u8>|
        #[trigger] m.contains_key(k) && in_range(k, lo, hi) ==> exists|i: int|
            0 <= i < s.len() && (#[trigger] s[i]).0 == k
}

/// The entries of `m` whose keys lie between `lo` and `hi`, in ascending
/// order of the keys.
pub open spec fn scan_of(m: RawMap, lo: BoundView, hi: BoundView) -> Seq<RawEntry> {
    choose|s: Seq<RawEntry>| is_scan(s, m, lo, hi)
}

/// `to` says for each entry of `a` where it stands in `b`.
pub open spec fn placed(a: Seq<RawEntry>, b: Seq<RawEntry>, to: spec_fn(int) -> int) -> bool {
    forall|i: int| 0 <= i < a.len() ==> 0 <= #[trigger] to(i) < b.len() && a[i] == b[to(i)]
}

proof fn lemma_same_run(
    a: Seq<RawEntry>,
    b: Seq<RawEntry>,
    to_b: spec_fn(int) -> int,
    to_a: spec_fn(int) -> int,
)
    requires
        ascending(a),
        ascending(b),
        placed(a, b, to_b),
        placed(b, a, to_a),
    ensures
        a == b,
    decreases a.len(),
{
    if a.len() == 0 {
        if b.len() > 0 {
            assert(0 <= to_a(0) < a.len());
        }
        assert(a =~= b);
    } else {
        let n = a.len() - 1;
        let j = to_b(n);
        assert(a[n] == b[j]);
        let m = b.len() - 1;
        let i = to_a(m);
        assert(b[m] == a[i]);
        lemma_lt_irreflexive(a[n].0);
        if j < m {
            assert(bytes_lt(b[j].0, b[m].0));
            if i < n {
                assert(bytes_lt(a[i].0, a[n].0));
                lemma_lt_transitive(a[n].0, b[m].0, a[n].0);
            }
        }
        assert(j == m);
        let front_a = a.drop_last();
        let front_b = b.drop_last();
        assert forall|k: int| 0 <= k < front_a.len() implies 0 <= #[trigger] to_b(k)
            < front_b.len() && front_a[k] == front_b[to_b(k)] by {
            assert(a[k] == b[to_b(k)]);
            assert(bytes_lt(a[k].0, a[n].0));
            lemma_lt_irreflexive(a[k].0);
        }
        assert forall|k: int| 0 <= k < front_b.len() implies 0 <= #[trigger] to_a(k)
            < front_a.len() && front_b[k] == front_a[to_a(k)] by {
            assert(b[k] == a[to_a(k)]);
            assert(bytes_lt(b[k].0, b[m].0));
            lemma_lt_irreflexive(b[k].0);
        }
        assert(ascending(front_a)) by {
            assert forall|x: int, y: int| 0 <= x < y < front_a.len() implies bytes_lt(
                #[trigger] front_a[x].0,
                #[trigger] front_a[y].0,
            ) by {
                assert(front_a[x] == a[x] && front_a[y] == a[y]);
            }
        }
        assert(ascending(front_b)) by {
            assert forall|x: int, y: int| 0 <= x < y < front_b.len() implies bytes_lt(
                #[trigger] front_b[x].0,
                #[trigger] front_b[y].0,
            ) by {
                assert(front_b[x] == b[x] && front_b[y] == b[y]);
            }
        }
        lemma_same_run(front_a, front_b, to_b, to_a);
        assert(a =~= front_a.push(a[n]));
        assert(b =~= front_b.push(b[m]));
    }
}

/// Where the entry of `a` at `i` stands in `b`.
pub open spec fn place_in(a: Seq<RawEntry>, b: Seq<RawEntry>, i: int) -> int {
    choose|j: int| 0 <= j < b.len() && (#[trigger] b[j]).0 == a[i].0
}

proof fn lemma_scan_placed(
    a: Seq<RawEntry>,
    b: Seq<RawEntry>,
    m: RawMap,
    lo: BoundView,
    hi: BoundView,
)
    requires
        is_scan(a, m, lo, hi),
        is_scan(b, m, lo, hi),
    ensures
        placed(a, b, |i: int| place_in(a, b, i)),
{
    let to = |i: int| place_in(a, b, i);
    assert forall|i: int| 0 <= i < a.len() implies 0 <= #[trigger] to(i) < b.len() && a[i] == b[to(
        i,
    )] by {
        let k = a[i].0;
        assert(m.contains_key(k) && in_range(k, lo, hi));
        let j = place_in(a, b, i);
        assert(b[j].1 == m[k]);
    }
}

/// A scan is determined by what is stored and by the range: there is one
/// run that `is_scan` holds of.
pub proof fn lemma_scan_unique(s: Seq<RawEntry>, m: RawMap, lo: BoundView, hi: BoundView)
    requires
        is_scan(s, m, lo, hi),
    ensures
        s == scan_of(m, lo, hi),
{
    let t = scan_of(m, lo, hi);
    assert(is_scan(t, m, lo, hi));
    lemma_scan_placed(s, t, m, lo, hi);
    lemma_scan_placed(t, s, m, lo, hi);
    lemma_same_run(s, t, |i: int| place_in(s, t, i), |i: int| place_in(t, s, i));
}

/// `a` and `b` hold the same under each key between `lo` and `hi`.
pub open spec fn agree_in(a: RawMap, b: RawMap, lo: BoundView, hi: BoundView) -> bool {
    forall|k: Seq<u8>| #[trigger]
        in_range(k, lo, hi) ==> a.contains_key(k) == b.contains_key(k) && (a.contains_key(k)
            ==> a[k] == b[k])
}

/// A scan sees nothing of what is stored outside its range: the scan of
/// one map is the scan of every map that holds the same inside the range.
pub proof fn lemma_scan_agrees(s: Seq<RawEntry>, a: RawMap, b: RawMap, lo: BoundView, hi: BoundView)
    requires
        is_scan(s, a, lo, hi),
        agree_in(a, b, lo, hi),
    ensures
        is_scan(s, b, lo, hi),
        s == scan_of(b, lo, hi),
{
    assert forall|i: int| 0 <= i < s.len() implies in_range((#[trigger] s[i]).0, lo, hi)
        && b.contains_key(s[i].0) && b[s[i].0] == s[i].1 by {
        assert(in_range(s[i].0, lo, hi));
    }
    assert forall|k: Seq<u8>| #[trigger] b.contains_key(k) && in_range(k, lo, hi) implies exists|
        i: int,
    | 0 <= i < s.len() && (#[trigger] s[i]).0 == k by {
        assert(a.contains_key(k));
    }
    lemma_scan_unique(s, b, lo, hi);
}

/// The contents after one change.
pub open spec fn apply_op(m: RawMap, op: OpView) -> RawMap {
    match op {
        OpView::Upsert(k, v) => m.insert(k, v),
        OpView::Remove(k) => m.remove(k),
        OpView::RemoveAll => Map::empty(),
    }
}

/// The contents after the changes `ops`, made in their order.
pub open spec fn apply_ops(m: RawMap, ops: Seq<OpView>) -> RawMap
    decreases ops.len(),
{
    if ops.len() == 0 {
        m
    } else {
        apply_op(apply_ops(m, ops.drop_last()), ops.last())
    }
}

/// The same changes, made to two maps that hold the same between `lo` and
/// `hi`, leave maps that hold the same there.
pub proof fn lemma_apply_agrees(a: RawMap, b: RawMap, ops: Seq<OpView>, lo: BoundView, hi: BoundView)
    requires
        agree_in(a, b, lo, hi),
    ensures
        agree_in(apply_ops(a, ops), apply_ops(b, ops), lo, hi),
    decreases ops.len(),
{
    if ops.len() > 0 {
        lemma_apply_agrees(a, b, ops.drop_last(), lo, hi);
        let before_a = apply_ops(a, ops.drop_last());
        let before_b = apply_ops(b, ops.drop_last());
        assert forall|k: Seq<u8>| #[trigger] in_range(k, lo, hi) implies apply_op(
            before_a,
            ops.last(),
        ).contains_key(k) == apply_op(before_b, ops.last()).contains_key(k) && (apply_op(
            before_a,
            ops.last(),
        ).contains_key(k) ==> apply_op(before_a, ops.last())[k] == apply_op(
            before_b,
            ops.last(),
        )[k]) by {
            assert(before_a.contains_key(k) == before_b.contains_key(k));
        }
    }
}

/// What a vector of changes holds.
pub open spec fn ops_of(ops: Seq<RawOp>) -> Seq<OpView> {
    ops.map_values(|op: RawOp| op@)
}

/// What a vector of entries holds.
pub open spec fn pairs_of(entries: Seq<(Vec<u8>, Vec<u8>)>) -> Seq<RawEntry> {
    entries.map_values(|e: (Vec<u8>, Vec<u8>)| (e.0@, e.1@))
}

/// A walk over stored entries, one entry a step.
pub trait BackendIter: Sized {
    /// The entries still to come, in the order in which they will come.
    spec fn remaining(&self) -> Seq<RawEntry>;

    /// The engine behind this walk never fails.
    spec fn reliable(&self) -> bool;

    /// The next entry; `None` at the end. An engine that can fail may hand
    /// out its error in place of an entry.
    fn next_entry(&mut self) -> (r: Option<Result<(Vec<u8>, Vec<u8>), String>>)
        ensures
            final(self).reliable() == old(self).reliable(),
            match r {
                None => old(self).remaining().len() == 0 && final(self).remaining().len() == 0,
                Some(Ok((k, v))) => {
                    &&& old(self).remaining().len() > 0
                    &&& (k@, v@) == old(self).remaining()[0]
                    &&& final(self).remaining() == old(self).remaining().drop_first()
                },
                Some(Err(_)) => !old(self).reliable(),
            },
    ;
}

/// A walk that can be turned round.
pub trait ReversibleIter: BackendIter {
    /// The same entries, last first.
    fn reverse(self) -> (r: Self)
        ensures
            r.remaining() == self.remaining().reverse(),
            r.reliable() == self.reliable(),
    ;
}

/// A storage engine for one collection: byte values under byte keys, kept
/// in byte-lexicographic order of the keys.
///
/// No call changes anything when it fails, and an engine that says of
/// itself that it is reliable does not fail.
pub trait Backend: Sized {
    /// What the engine is opened with.
    type Conf;

    /// The walk that a scan hands out.
    type Iter: ReversibleIter;

    /// What the engine holds.
    spec fn entries(&self) -> RawMap;

    /// The engine never fails.
    spec fn reliable(&self) -> bool;

    /// Opens the engine.
    fn open(conf: Self::Conf) -> (r: Result<Self, String>);

    /// The value under `key`.
    fn get(&self, key: &[u8]) -> (r: Result<Option<Vec<u8>>, String>)
        ensures
            match r {
                Ok(Some(v)) => self.entries().contains_key(key@) && self.entries()[key@] == v@,
                Ok(None) => !self.entries().contains_key(key@),
                Err(_) => !self.reliable(),
            },
    ;

    /// Stores `value` under `key`.
    fn put(&mut self, key: Vec<u8>, value: Vec<u8>) -> (r: Result<(), String>)
        ensures
            final(self).reliable() == old(self).reliable(),
            match r {
                Ok(_) => final(self).entries() == old(self).entries().insert(key@, value@),
                Err(_) => !old(self).reliable() && final(self).entries() == old(self).entries(),
            },
    ;

    /// Takes `key` out.
    fn delete(&mut self, key: &[u8]) -> (r: Result<(), String>)
        ensures
            final(self).reliable() == old(self).reliable(),
            match r {
                Ok(_) => final(self).entries() == old(self).entries().remove(key@),
                Err(_) => !old(self).reliable() && final(self).entries() == old(self).entries(),
            },
    ;

    /// Takes every key out.
    fn clear(&mut self) -> (r: Result<(), String>)
        ensures
            final(self).reliable() == old(self).reliable(),
            match r {
                Ok(_) => final(self).entries() == RawMap::empty(),
                Err(_) => !old(self).reliable() && final(self).entries() == old(self).entries(),
            },
    ;

    /// How many keys are stored.
    fn count(&self) -> (r: Result<usize, String>)
        ensures
            match r {
                Ok(n) => self.entries().dom().finite() && self.entries().dom().len() == n,
                Err(_) => !self.reliable(),
            },
    ;

    /// A walk, in ascending order, over the entries as they are now whose
    /// keys lie between `lo` and `hi`.
    fn scan(&self, lo: &RawBound, hi: &RawBound) -> (r: Result<Self::Iter, String>)
        ensures
            match r {
                Ok(it) => is_scan(it.remaining(), self.entries(), lo@, hi@) && it.reliable()
                    == self.reliable(),
                Err(_) => !self.reliable(),
            },
    ;

    /// Makes the changes `ops` in their order, all of them or none.
    fn apply_batch(&mut self, ops: &Vec<RawOp>) -> (r: Result<(), String>)
        ensures
            final(self).reliable() == old(self).reliable(),
            match r {
                Ok(_) => final(self).entries() == apply_ops(old(self).entries(), ops_of(ops@)),
                Err(_) => !old(self).reliable() && final(self).entries() == old(self).entries(),
            },
    ;

    /// Gives the engine up.
    fn close(self);
}

} // verus!
