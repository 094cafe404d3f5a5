//! Length-prefixed frames: how the fields of a record and the items of a
//! list are laid one after the other so that they can be told apart again.

use crate::codec::be::{
    be64, from_be64, lemma_be64_canonical, lemma_be64_round_trip, push_be64, read_be64,
};
use vstd::prelude::*;
use vstd::slice::{slice_subrange, slice_to_vec};

verus! {

/// One item behind its length, the length as eight big-endian bytes.
pub open spec fn frame(item: Seq<u8>) -> Seq<u8> {
    be64(item.len() as u64) + item
}

/// The frames of `items`, one after the other.
pub open spec fn join_frames(items: Seq<Seq<u8>>) -> Seq<u8>
    decreases items.len(),
{
    if items.len() == 0 {
        Seq::empty()
    } else {
        frame(items[0]) + join_frames(items.drop_first())
    }
}

/// The items whose frames make up `bytes`, or `None` where `bytes` is not a
/// run of whole frames.
pub open spec fn split_frames(bytes: Seq<u8>) -> Option<Seq<Seq<u8>>>
    decreases bytes.len(),
{
    if bytes.len() == 0 {
        Some(Seq::empty())
    } else if bytes.len() < 8 {
        None
    } else {
        let n = from_be64(bytes) as int;
        if n > bytes.len() - 8 {
            None
        } else {
            match split_frames(bytes.subrange(8 + n, bytes.len() as int)) {
                Some(rest) => Some(seq![bytes.subrange(8, 8 + n)] + rest),
                None => None,
            }
        }
    }
}

/// Every item is short enough for its length to be written down.
pub open spec fn frames_fit(items: Seq<Seq<u8>>) -> bool {
    forall|i: int| 0 <= i < items.len() ==> (#[trigger] items[i]).len() <= u64::MAX
}

/// `front` put before what `rest` holds, where it holds anything.
pub open spec fn prepend(front: Seq<Seq<u8>>, rest: Option<Seq<Seq<u8>>>) -> Option<Seq<Seq<u8>>> {
    match rest {
        Some(r) => Some(front + r),
        None => None,
    }
}

/// What a vector of byte vectors holds.
pub open spec fn items_of(v: Seq<Vec<u8>>) -> Seq<Seq<u8>> {
    v.map_values(|item: Vec<u8>| item@)
}

/// Splitting undoes joining.
pub proof fn lemma_split_join(items: Seq<Seq<u8>>)
    requires
        frames_fit(items),
    ensures
        split_frames(join_frames(items)) == Some(items),
    decreases items.len(),
{
    if items.len() > 0 {
        let first = items[0];
        let rest = items.drop_first();
        let joined = join_frames(items);
        let n = first.len() as int;
        lemma_be64_round_trip(first.len() as u64);
        assert(forall|k: int| 0 <= k < 8 ==> joined[k] == be64(first.len() as u64)[k]);
        assert(from_be64(joined) == first.len());
        assert(joined.subrange(8, 8 + n) =~= first);
        assert(joined.subrange(8 + n, joined.len() as int) =~= join_frames(rest));
        assert(frames_fit(rest)) by {
            assert forall|i: int| 0 <= i < rest.len() implies (#[trigger] rest[i]).len()
                <= u64::MAX by {
                assert(rest[i] == items[i + 1]);
            }
        }
        lemma_split_join(rest);
        assert(seq![first] + rest =~= items);
    }
}

/// Joining undoes splitting: a run of whole frames is told apart in one
/// way only.
pub proof fn lemma_join_split(bytes: Seq<u8>)
    requires
        split_frames(bytes) is Some,
    ensures
        join_frames(split_frames(bytes).unwrap()) == bytes,
        frames_fit(split_frames(bytes).unwrap()),
    decreases bytes.len(),
{
    let items = split_frames(bytes).unwrap();
    if bytes.len() > 0 {
        let n = from_be64(bytes) as int;
        let tail = bytes.subrange(8 + n, bytes.len() as int);
        let first = bytes.subrange(8, 8 + n);
        let rest = split_frames(tail).unwrap();
        lemma_join_split(tail);
        lemma_be64_canonical(bytes);
        assert(items == seq![first] + rest);
        assert(items[0] == first);
        assert(items.drop_first() =~= rest);
        assert(first.len() as u64 == from_be64(bytes));
        assert(join_frames(items) =~= bytes);
        assert forall|i: int| 0 <= i < items.len() implies (#[trigger] items[i]).len()
            <= u64::MAX by {
            if i > 0 {
                assert(items[i] == rest[i - 1]);
            }
        }
    }
}

/// Joining a list and one more item puts the item's frame at the end.
pub proof fn lemma_join_push(items: Seq<Seq<u8>>, item: Seq<u8>)
    ensures
        join_frames(items.push(item)) == join_frames(items) + frame(item),
    decreases items.len(),
{
    if items.len() == 0 {
        let one = items.push(item);
        assert(one.drop_first() =~= Seq::<Seq<u8>>::empty());
        assert(join_frames(one.drop_first()) =~= Seq::<u8>::empty());
        assert(one[0] == item);
        assert(join_frames(one) =~= join_frames(items) + frame(item));
    } else {
        lemma_join_push(items.drop_first(), item);
        assert(items.push(item).drop_first() =~= items.drop_first().push(item));
        assert(items.push(item)[0] == items[0]);
        assert(join_frames(items.push(item)) =~= join_frames(items) + frame(item));
    }
}

/// Appends `item` to `out`, byte by byte.
pub fn push_bytes(out: &mut Vec<u8>, item: &[u8])
    ensures
        final(out)@ == old(out)@ + item@,
{
    let mut i: usize = 0;
    while i < item.len()
        invariant
            i <= item@.len(),
            out@ == old(out)@ + item@.subrange(0, i as int),
        decreases item.len() - i,
    {
        out.push(item[i]);
        i = i + 1;
        assert(out@ =~= old(out)@ + item@.subrange(0, i as int));
    }
    assert(item@.subrange(0, i as int) =~= item@);
}

/// Appends the frame of `item` to `out`.
pub fn push_frame(out: &mut Vec<u8>, item: &[u8])
    ensures
        final(out)@ == old(out)@ + frame(item@),
{
    push_be64(out, item.len() as u64);
    push_bytes(out, item);
    assert(out@ =~= old(out)@ + frame(item@));
}

/// Splits `bytes` into the items whose frames it is made of.
pub fn read_frames(bytes: &[u8]) -> (r: Option<Vec<Vec<u8>>>)
    ensures
        match r {
            Some(items) => split_frames(bytes@) == Some(items_of(items@)),
            None => split_frames(bytes@) is None,
        },
{
    let mut items: Vec<Vec<u8>> = Vec::new();
    let mut pos: usize = 0;
    assert(bytes@.subrange(0, bytes@.len() as int) =~= bytes@);
    assert(Seq::<Seq<u8>>::empty() + split_frames(bytes@).unwrap() =~= split_frames(
        bytes@,
    ).unwrap());
    assert(items_of(items@) =~= Seq::<Seq<u8>>::empty());
    while pos < bytes.len()
        invariant
            pos <= bytes@.len(),
            split_frames(bytes@) == prepend(
                items_of(items@),
                split_frames(bytes@.subrange(pos as int, bytes@.len() as int)),
            ),
        decreases bytes.len() - pos,
    {
        let ghost rest = bytes@.subrange(pos as int, bytes@.len() as int);
        if bytes.len() - pos < 8 {
            return None;
        }
        let n: u64 = read_be64(bytes, pos);
        assert(from_be64(rest) == n) by {
            assert(forall|k: int|
                0 <= k < 8 ==> rest[k] == bytes@.subrange(pos as int, pos + 8)[k]);
        }
        if n > (bytes.len() - pos - 8) as u64 {
            return None;
        }
        let start: usize = pos + 8;
        let end: usize = start + n as usize;
        let item: Vec<u8> = slice_to_vec(slice_subrange(bytes, start, end));
        proof {
            let tail = split_frames(bytes@.subrange(end as int, bytes@.len() as int));
            assert(rest.subrange(8, 8 + n) =~= item@);
            assert(rest.subrange(8 + n, rest.len() as int) =~= bytes@.subrange(
                end as int,
                bytes@.len() as int,
            ));
            assert(items_of(items@.push(item)) =~= items_of(items@).push(item@));
            if tail is Some {
                assert(items_of(items@) + (seq![item@] + tail.unwrap()) =~= items_of(items@).push(
                    item@,
                ) + tail.unwrap());
            }
        }
        items.push(item);
        pos = end;
    }
    proof {
        let done = items_of(items@);
        assert(done + Seq::<Seq<u8>>::empty() =~= done);
    }
    Some(items)
}

} // verus!
