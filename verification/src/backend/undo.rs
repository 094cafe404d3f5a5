//! Taking changes back: the changes that restore what an engine held
//! before a batch was written.

use crate::backend::{
    apply_ops, is_scan, ops_of, Backend, BackendIter, BoundView, OpView, RawBound, RawEntry,
    RawMap, RawOp,
};
use vstd::prelude::*;
use vstd::slice::slice_to_vec;

verus! {

/// The key that a change is about; none for the removal of every key.
pub open spec fn op_key(op: OpView) -> Option<Seq<u8>> {
    match op {
        OpView::Upsert(k, _) => Some(k),
        OpView::Remove(k) => Some(k),
        OpView::RemoveAll => None,
    }
}

/// One of the changes is about the key `k`.
pub open spec fn touches(ops: Seq<OpView>, k: Seq<u8>) -> bool {
    exists|i: int| 0 <= i < ops.len() && op_key(#[trigger] ops[i]) == Some(k)
}

/// One of the changes removes every key.
pub open spec fn clears(ops: Seq<OpView>) -> bool {
    exists|i: int| 0 <= i < ops.len() && (#[trigger] ops[i]) is RemoveAll
}

/// The change that gives the key `k` what it has in `m`.
pub open spec fn restoring(m: RawMap, k: Seq<u8>) -> OpView {
    if m.contains_key(k) {
        OpView::Upsert(k, m[k])
    } else {
        OpView::Remove(k)
    }
}

/// `a` and `b` hold the same under the key `k`.
pub open spec fn same_at(a: RawMap, b: RawMap, k: Seq<u8>) -> bool {
    a.contains_key(k) == b.contains_key(k) && (a.contains_key(k) ==> a[k] == b[k])
}

/// Each of the changes `undo` restores a key to what it has in `m`, and
/// each key that `ops` is about is restored by one of them.
pub open spec fn restores_keys(undo: Seq<OpView>, m: RawMap, ops: Seq<OpView>) -> bool {
    &&& forall|i: int|
        0 <= i < undo.len() ==> op_key(#[trigger] undo[i]) is Some && undo[i] == restoring(
            m,
            op_key(undo[i]).unwrap(),
        )
    &&& forall|i: int|
        0 <= i < ops.len() ==> op_key(#[trigger] ops[i]) is Some && touches(
            undo,
            op_key(ops[i]).unwrap(),
        )
}

/// `undo` removes every key and then stores the entries `s`.
pub open spec fn restores_all(undo: Seq<OpView>, s: Seq<RawEntry>) -> bool {
    &&& undo.len() == s.len() + 1
    &&& undo[0] is RemoveAll
    &&& forall|i: int| 0 <= i < s.len() ==> #[trigger] undo[i + 1] == OpView::Upsert(s[i].0, s[i].1)
}

/// The changes `undo` take the changes `ops` back: made after them, they
/// leave what was held before them.
pub open spec fn takes_back(undo: Seq<OpView>, m: RawMap, ops: Seq<OpView>) -> bool {
    apply_ops(apply_ops(m, ops), undo) == m
}

proof fn lemma_untouched(m: RawMap, ops: Seq<OpView>, k: Seq<u8>)
    requires
        !clears(ops),
        !touches(ops, k),
    ensures
        same_at(apply_ops(m, ops), m, k),
    decreases ops.len(),
{
    if ops.len() > 0 {
        let front = ops.drop_last();
        assert(!clears(front)) by {
            if clears(front) {
                let i = choose|i: int| 0 <= i < front.len() && (#[trigger] front[i]) is RemoveAll;
                assert(ops[i] is RemoveAll);
            }
        }
        assert(!touches(front, k)) by {
            if touches(front, k) {
                let i = choose|i: int| 0 <= i < front.len() && op_key(#[trigger] front[i]) == Some(k);
                assert(op_key(ops[i]) == Some(k));
            }
        }
        lemma_untouched(m, front, k);
        let last = ops[ops.len() - 1];
        assert(!(last is RemoveAll));
        assert(op_key(last) != Some(k));
    }
}

proof fn lemma_restored(x: RawMap, m: RawMap, undo: Seq<OpView>, k: Seq<u8>)
    requires
        forall|i: int|
            0 <= i < undo.len() ==> op_key(#[trigger] undo[i]) is Some && undo[i] == restoring(
                m,
                op_key(undo[i]).unwrap(),
            ),
    ensures
        touches(undo, k) ==> same_at(apply_ops(x, undo), m, k),
        !touches(undo, k) ==> same_at(apply_ops(x, undo), x, k),
    decreases undo.len(),
{
    if undo.len() > 0 {
        let front = undo.drop_last();
        let last = undo[undo.len() - 1];
        assert forall|i: int| 0 <= i < front.len() implies op_key(#[trigger] front[i]) is Some
            && front[i] == restoring(m, op_key(front[i]).unwrap()) by {
            assert(front[i] == undo[i]);
        }
        lemma_restored(x, m, front, k);
        assert(touches(undo, k) <==> (touches(front, k) || op_key(last) == Some(k))) by {
            if touches(undo, k) {
                let i = choose|i: int| 0 <= i < undo.len() && op_key(#[trigger] undo[i]) == Some(k);
                if i < undo.len() - 1 {
                    assert(op_key(front[i]) == Some(k));
                }
            }
            if touches(front, k) {
                let i = choose|i: int| 0 <= i < front.len() && op_key(#[trigger] front[i]) == Some(k);
                assert(op_key(undo[i]) == Some(k));
            }
            if op_key(last) == Some(k) {
                assert(op_key(undo[undo.len() - 1]) == Some(k));
            }
        }
        assert(op_key(last) is Some && last == restoring(m, op_key(last).unwrap()));
    }
}

/// Changes that restore each key that a batch is about take the batch
/// back, if the batch does not remove every key.
pub proof fn lemma_keys_taken_back(undo: Seq<OpView>, m: RawMap, ops: Seq<OpView>)
    requires
        restores_keys(undo, m, ops),
    ensures
        takes_back(undo, m, ops),
{
    let after = apply_ops(m, ops);
    let back = apply_ops(after, undo);
    assert(!clears(ops)) by {
        if clears(ops) {
            let i = choose|i: int| 0 <= i < ops.len() && (#[trigger] ops[i]) is RemoveAll;
            assert(op_key(ops[i]) is Some);
        }
    }
    assert forall|k: Seq<u8>|
        #[trigger] back.contains_key(k) == m.contains_key(k) && (back.contains_key(k) ==> back[k]
            == m[k]) by {
        lemma_restored(after, m, undo, k);
        if !touches(undo, k) {
            assert(!touches(ops, k)) by {
                if touches(ops, k) {
                    let i = choose|i: int| 0 <= i < ops.len() && op_key(#[trigger] ops[i]) == Some(k);
                    assert(touches(undo, op_key(ops[i]).unwrap()));
                }
            }
            lemma_untouched(m, ops, k);
        }
    }
    assert(back =~= m);
}

/// One of the first `upto` entries of `s` stands under the key `k`.
pub open spec fn held_by(s: Seq<RawEntry>, upto: int, k: Seq<u8>) -> bool {
    exists|j: int| 0 <= j < upto && j < s.len() && (#[trigger] s[j]).0 == k
}

proof fn lemma_stored_again(x: RawMap, m: RawMap, s: Seq<RawEntry>, undo: Seq<OpView>, upto: int)
    requires
        is_scan(s, m, BoundView::Unbounded, BoundView::Unbounded),
        restores_all(undo, s),
        0 <= upto <= s.len(),
    ensures
        ({
            let now = apply_ops(x, undo.subrange(0, upto + 1));
            &&& forall|k: Seq<u8>| #[trigger] now.contains_key(k) == held_by(s, upto, k)
            &&& forall|k: Seq<u8>| #[trigger] now.contains_key(k) ==> now[k] == m[k]
        }),
    decreases upto,
{
    let part = undo.subrange(0, upto + 1);
    if upto == 0 {
        assert(part.drop_last() =~= Seq::<OpView>::empty());
        assert(part[part.len() - 1] == undo[0]);
        assert(apply_ops(x, part) =~= RawMap::empty());
    } else {
        lemma_stored_again(x, m, s, undo, upto - 1);
        assert(part.drop_last() =~= undo.subrange(0, upto));
        assert(part[part.len() - 1] == undo[(upto - 1) + 1]);
        let before = apply_ops(x, undo.subrange(0, upto));
        let now = apply_ops(x, part);
        let e = s[upto - 1];
        assert(now == before.insert(e.0, e.1));
        assert(m.contains_key(e.0) && m[e.0] == e.1);
        assert forall|k: Seq<u8>| #[trigger] now.contains_key(k) == held_by(s, upto, k) by {
            assert(before.contains_key(k) == held_by(s, upto - 1, k));
            if held_by(s, upto, k) {
                let j = choose|j: int| 0 <= j < upto && j < s.len() && (#[trigger] s[j]).0 == k;
                if j < upto - 1 {
                    assert(held_by(s, upto - 1, k));
                }
            }
            if held_by(s, upto - 1, k) {
                let j = choose|j: int| 0 <= j < upto - 1 && j < s.len() && (#[trigger] s[j]).0 == k;
                assert(0 <= j < upto && s[j].0 == k);
            }
            if k == e.0 {
                assert(s[upto - 1].0 == k);
            }
        }
        assert forall|k: Seq<u8>| #[trigger] now.contains_key(k) implies now[k] == m[k] by {
            if k != e.0 {
                assert(before.contains_key(k));
            }
        }
    }
}

/// Removing every key and storing again all that was held takes any batch
/// back.
pub proof fn lemma_all_taken_back(undo: Seq<OpView>, m: RawMap, s: Seq<RawEntry>, ops: Seq<OpView>)
    requires
        is_scan(s, m, BoundView::Unbounded, BoundView::Unbounded),
        restores_all(undo, s),
    ensures
        takes_back(undo, m, ops),
{
    let after = apply_ops(m, ops);
    lemma_stored_again(after, m, s, undo, s.len() as int);
    assert(undo.subrange(0, s.len() as int + 1) =~= undo);
    let back = apply_ops(after, undo);
    assert forall|k: Seq<u8>|
        #[trigger] back.contains_key(k) == m.contains_key(k) && (back.contains_key(k) ==> back[k]
            == m[k]) by {
        assert(back.contains_key(k) == held_by(s, s.len() as int, k));
        if m.contains_key(k) {
            let j = choose|j: int| 0 <= j < s.len() && (#[trigger] s[j]).0 == k;
            assert(0 <= j < s.len() && s[j].0 == k);
        }
        if held_by(s, s.len() as int, k) {
            let j = choose|j: int| 0 <= j < s.len() && j < s.len() && (#[trigger] s[j]).0 == k;
            assert(m.contains_key(s[j].0));
        }
    }
    assert(back =~= m);
}

/// Whether one of the changes removes every key.
fn has_clear(ops: &Vec<RawOp>) -> (found: bool)
    ensures
        found == clears(ops_of(ops@)),
{
    let mut i: usize = 0;
    while i < ops.len()
        invariant
            i <= ops@.len(),
            forall|j: int| 0 <= j < i ==> !((#[trigger] ops_of(ops@)[j]) is RemoveAll),
        decreases ops.len() - i,
    {
        assert(ops_of(ops@)[i as int] == ops@[i as int]@);
        if let RawOp::RemoveAll = &ops[i] {
            return true;
        }
        i = i + 1;
    }
    false
}

/// A copy of a key.
fn copy_of(bytes: &Vec<u8>) -> (copy: Vec<u8>)
    ensures
        copy@ == bytes@,
{
    slice_to_vec(bytes.as_slice())
}

/// The changes that take the batch `ops` back once it is written to
/// `backend`. Nothing is written here; the engine is only read.
pub fn undo_of<B: Backend>(backend: &B, ops: &Vec<RawOp>) -> (r: Result<Vec<RawOp>, String>)
    ensures
        match r {
            Ok(undo) => takes_back(ops_of(undo@), backend.entries(), ops_of(ops@)),
            Err(_) => !backend.reliable(),
        },
{
    let ghost m = backend.entries();
    let mut undo: Vec<RawOp> = Vec::new();
    if has_clear(ops) {
        let no_limit = RawBound::Unbounded;
        let mut it = match backend.scan(&no_limit, &no_limit) {
            Ok(it) => it,
            Err(e) => {
                return Err(e);
            },
        };
        let ghost s = it.remaining();
        undo.push(RawOp::RemoveAll);
        loop
            invariant
                it.reliable() == backend.reliable(),
                m == backend.entries(),
                is_scan(s, m, BoundView::Unbounded, BoundView::Unbounded),
                1 <= undo@.len() <= s.len() + 1,
                it.remaining() == s.skip(undo@.len() - 1),
                undo@[0]@ is RemoveAll,
                forall|i: int|
                    0 <= i < undo@.len() - 1 ==> (#[trigger] undo@[i + 1])@ == OpView::Upsert(
                        s[i].0,
                        s[i].1,
                    ),
            decreases it.remaining().len(),
        {
            let ghost done = undo@.len() - 1;
            match it.next_entry() {
                None => {
                    proof {
                        let u = ops_of(undo@);
                        assert(u[0] == undo@[0]@);
                        assert forall|i: int| 0 <= i < s.len() implies #[trigger] u[i + 1]
                            == OpView::Upsert(s[i].0, s[i].1) by {
                            assert(u[i + 1] == undo@[i + 1]@);
                        }
                        lemma_all_taken_back(u, m, s, ops_of(ops@));
                    }
                    return Ok(undo);
                },
                Some(Err(e)) => {
                    return Err(e);
                },
                Some(Ok((key, value))) => {
                    assert(s.skip(done).drop_first() =~= s.skip(done + 1));
                    assert(s.skip(done)[0] == s[done]);
                    undo.push(RawOp::Upsert(key, value));
                },
            }
        }
    } else {
        let mut i: usize = 0;
        while i < ops.len()
            invariant
                i <= ops@.len(),
                m == backend.entries(),
                !clears(ops_of(ops@)),
                undo@.len() == i,
                forall|j: int|
                    0 <= j < i ==> op_key(#[trigger] ops_of(ops@)[j]) is Some && undo@[j]@
                        == restoring(m, op_key(ops_of(ops@)[j]).unwrap()),
            decreases ops.len() - i,
        {
            assert(ops_of(ops@)[i as int] == ops@[i as int]@);
            assert(!(ops_of(ops@)[i as int] is RemoveAll));
            let key = match &ops[i] {
                RawOp::Upsert(key, _) => copy_of(key),
                RawOp::Remove(key) => copy_of(key),
                RawOp::RemoveAll => Vec::new(),
            };
            let restore = match backend.get(key.as_slice()) {
                Ok(Some(value)) => RawOp::Upsert(key, value),
                Ok(None) => RawOp::Remove(key),
                Err(e) => {
                    return Err(e);
                },
            };
            undo.push(restore);
            i = i + 1;
        }
        proof {
            let u = ops_of(undo@);
            let o = ops_of(ops@);
            assert forall|j: int| 0 <= j < u.len() implies op_key(#[trigger] u[j]) is Some && u[j]
                == restoring(m, op_key(u[j]).unwrap()) by {
                assert(u[j] == undo@[j]@);
                assert(op_key(o[j]) is Some);
            }
            assert forall|j: int| 0 <= j < o.len() implies op_key(#[trigger] o[j]) is Some
                && touches(u, op_key(o[j]).unwrap()) by {
                assert(u[j] == undo@[j]@);
                assert(op_key(u[j]) == op_key(o[j]));
            }
            lemma_keys_taken_back(u, m, o);
        }
        Ok(undo)
    }
}

} // verus!
