//! Records and lists as runs of frames: one frame for each field of a
//! record, one for each item of a list. A list that is stored on its own
//! begins with the number of its items, so that no value is stored as no
//! bytes at all.

use crate::codec::be::{be64, from_be64, lemma_be64_round_trip, push_be64, read_be64};
use crate::codec::frame::{
    frame, frames_fit, items_of, join_frames, lemma_join_push, lemma_split_join, push_bytes,
    push_frame, read_frames, split_frames,
};
use crate::codec::Codec;
use vstd::prelude::*;
use vstd::slice::slice_subrange;

verus! {

/// The byte string is short enough to stand in a frame.
pub open spec fn fits(bytes: Seq<u8>) -> bool {
    bytes.len() <= u64::MAX
}

/// The frames of two fields.
pub fn frame2(a: &[u8], b: &[u8]) -> (out: Vec<u8>)
    ensures
        out@ == join_frames(seq![a@, b@]),
{
    let mut out: Vec<u8> = Vec::new();
    push_frame(&mut out, a);
    push_frame(&mut out, b);
    proof {
        lemma_join_push(Seq::empty(), a@);
        lemma_join_push(seq![a@], b@);
        assert(Seq::<Seq<u8>>::empty().push(a@) =~= seq![a@]);
        assert(seq![a@].push(b@) =~= seq![a@, b@]);
        assert(out@ =~= join_frames(seq![a@, b@]));
    }
    out
}

/// The frames of three fields.
pub fn frame3(a: &[u8], b: &[u8], c: &[u8]) -> (out: Vec<u8>)
    ensures
        out@ == join_frames(seq![a@, b@, c@]),
{
    let mut out: Vec<u8> = frame2(a, b);
    push_frame(&mut out, c);
    proof {
        lemma_join_push(seq![a@, b@], c@);
        assert(seq![a@, b@].push(c@) =~= seq![a@, b@, c@]);
    }
    out
}

/// The frames of four fields.
pub fn frame4(a: &[u8], b: &[u8], c: &[u8], d: &[u8]) -> (out: Vec<u8>)
    ensures
        out@ == join_frames(seq![a@, b@, c@, d@]),
{
    let mut out: Vec<u8> = frame3(a, b, c);
    push_frame(&mut out, d);
    proof {
        lemma_join_push(seq![a@, b@, c@], d@);
        assert(seq![a@, b@, c@].push(d@) =~= seq![a@, b@, c@, d@]);
    }
    out
}

/// The fields of a record of `n` fields, or `None` where `bytes` is
/// something else.
pub open spec fn fields_of(bytes: Seq<u8>, n: nat) -> Option<Seq<Seq<u8>>> {
    match split_frames(bytes) {
        Some(fields) => if fields.len() == n {
            Some(fields)
        } else {
            None
        },
        None => None,
    }
}

/// Splits a record of `n` fields into its fields.
pub fn unframe(bytes: &[u8], n: usize) -> (r: Option<Vec<Vec<u8>>>)
    ensures
        match fields_of(bytes@, n as nat) {
            Some(fields) => r matches Some(items) && items_of(items@) == fields && items@.len()
                == n,
            None => r is None,
        },
{
    match read_frames(bytes) {
        Some(items) => {
            if items.len() == n {
                Some(items)
            } else {
                None
            }
        },
        None => None,
    }
}

/// The fields of a record come back when its bytes are split.
pub proof fn lemma_fields_round_trip(fields: Seq<Seq<u8>>)
    requires
        frames_fit(fields),
    ensures
        fields_of(join_frames(fields), fields.len()) == Some(fields),
{
    lemma_split_join(fields);
}

/// The views of the items of a vector.
pub open spec fn views<T: View>(items: Seq<T>) -> Seq<T::V> {
    items.map_values(|item: T| item@)
}

/// The encodings of the items of a list.
pub open spec fn encoded_items<T: Codec>(items: Seq<T::V>) -> Seq<Seq<u8>> {
    items.map_values(|v: T::V| T::encoded(v))
}

/// Every item of the list can be held and framed.
pub open spec fn list_valid<T: Codec>(items: Seq<T::V>) -> bool {
    forall|i: int|
        0 <= i < items.len() ==> T::valid(#[trigger] items[i]) && fits(T::encoded(items[i]))
}

/// Each item of a valid list can be held and framed.
pub proof fn lemma_list_item_valid<T: Codec>(items: Seq<T::V>, i: int)
    requires
        list_valid::<T>(items),
        0 <= i < items.len(),
    ensures
        T::valid(items[i]),
        fits(T::encoded(items[i])),
{
}

/// The bytes of a list: the frames of its items.
pub open spec fn list_encoded<T: Codec>(items: Seq<T::V>) -> Seq<u8> {
    join_frames(encoded_items::<T>(items))
}

/// The items that the frames stand for, or `None` where one of them stands
/// for nothing.
pub open spec fn frames_decoded<T: Codec>(frames: Seq<Seq<u8>>) -> Option<Seq<T::V>> {
    if forall|i: int| 0 <= i < frames.len() ==> T::decoded(#[trigger] frames[i]) is Some {
        Some(frames.map_values(|f: Seq<u8>| T::decoded(f).unwrap()))
    } else {
        None
    }
}

/// The list that `bytes` stand for.
pub open spec fn list_decoded<T: Codec>(bytes: Seq<u8>) -> Option<Seq<T::V>> {
    match split_frames(bytes) {
        Some(frames) => frames_decoded::<T>(frames),
        None => None,
    }
}

/// Decoding a list undoes encoding it.
pub proof fn lemma_list_round_trip<T: Codec>(items: Seq<T::V>)
    requires
        list_valid::<T>(items),
    ensures
        list_decoded::<T>(list_encoded::<T>(items)) == Some(items),
{
    let frames = encoded_items::<T>(items);
    assert(frames_fit(frames));
    lemma_split_join(frames);
    assert forall|i: int| 0 <= i < frames.len() implies T::decoded(#[trigger] frames[i]) == Some(
        items[i],
    ) by {
        T::lemma_round_trip(items[i]);
    }
    assert(frames.map_values(|f: Seq<u8>| T::decoded(f).unwrap()) =~= items);
}

/// The bytes of a list.
pub fn encode_list<T: Codec>(items: &Vec<T>) -> (out: Vec<u8>)
    ensures
        list_valid::<T>(views(items@)),
        out@ == list_encoded::<T>(views(items@)),
{
    let mut out: Vec<u8> = Vec::new();
    let mut i: usize = 0;
    let ghost all = views(items@);
    assert(encoded_items::<T>(all.subrange(0, 0)) =~= Seq::<Seq<u8>>::empty());
    while i < items.len()
        invariant
            i <= items@.len(),
            all == views(items@),
            out@ == list_encoded::<T>(all.subrange(0, i as int)),
            list_valid::<T>(all.subrange(0, i as int)),
        decreases items.len() - i,
    {
        let bytes = items[i].as_bytes();
        let size: usize = bytes.len();
        proof {
            let done = all.subrange(0, i as int);
            let next = all.subrange(0, i as int + 1);
            assert(all[i as int] == items@[i as int]@);
            assert(fits(bytes@));
            assert(next =~= done.push(all[i as int]));
            assert(encoded_items::<T>(next) =~= encoded_items::<T>(done).push(bytes@));
            lemma_join_push(encoded_items::<T>(done), bytes@);
            assert forall|j: int| 0 <= j < next.len() implies T::valid(#[trigger] next[j]) && fits(
                T::encoded(next[j]),
            ) by {
                if j < i {
                    assert(next[j] == done[j]);
                } else {
                    assert(next[j] == all[i as int]);
                }
            }
        }
        push_frame(&mut out, bytes.as_slice());
        i = i + 1;
    }
    assert(all.subrange(0, i as int) =~= all);
    out
}

/// Reads a list back; `None` exactly where the bytes stand for none.
pub fn decode_list<T: Codec>(bytes: &[u8]) -> (r: Option<Vec<T>>)
    ensures
        match list_decoded::<T>(bytes@) {
            Some(items) => r matches Some(v) && views(v@) == items,
            None => r is None,
        },
{
    let frames = match read_frames(bytes) {
        Some(frames) => frames,
        None => {
            return None;
        },
    };
    let ghost fs = items_of(frames@);
    let mut items: Vec<T> = Vec::new();
    let mut i: usize = 0;
    while i < frames.len()
        invariant
            i <= frames@.len(),
            fs == items_of(frames@),
            split_frames(bytes@) == Some(fs),
            items@.len() == i,
            forall|j: int| 0 <= j < i ==> T::decoded(#[trigger] fs[j]) == Some(items@[j]@),
        decreases frames.len() - i,
    {
        assert(fs[i as int] == frames@[i as int]@);
        match T::from_bytes(frames[i].as_slice()) {
            Ok(item) => {
                items.push(item);
            },
            Err(_) => {
                assert(T::decoded(fs[i as int]) is None);
                return None;
            },
        }
        i = i + 1;
    }
    assert(views(items@) =~= fs.map_values(|f: Seq<u8>| T::decoded(f).unwrap()));
    Some(items)
}

/// One field of a record, decoded.
pub fn decode_field<T: Codec>(fields: &Vec<Vec<u8>>, i: usize) -> (r: Option<T>)
    requires
        i < fields@.len(),
    ensures
        match T::decoded(items_of(fields@)[i as int]) {
            Some(v) => r matches Some(x) && x@ == v,
            None => r is None,
        },
{
    match T::from_bytes(fields[i].as_slice()) {
        Ok(x) => Some(x),
        Err(_) => None,
    }
}

/// The frames of any number of fields.
pub fn join(items: &Vec<Vec<u8>>) -> (out: Vec<u8>)
    ensures
        out@ == join_frames(items_of(items@)),
        frames_fit(items_of(items@)),
{
    let mut out: Vec<u8> = Vec::new();
    let ghost all = items_of(items@);
    let mut i: usize = 0;
    assert(all.subrange(0, 0) =~= Seq::<Seq<u8>>::empty());
    while i < items.len()
        invariant
            i <= items@.len(),
            all == items_of(items@),
            out@ == join_frames(all.subrange(0, i as int)),
            frames_fit(all.subrange(0, i as int)),
        decreases items.len() - i,
    {
        let size: usize = items[i].len();
        proof {
            let done = all.subrange(0, i as int);
            let next = all.subrange(0, i as int + 1);
            assert(all[i as int] == items@[i as int]@);
            assert(next =~= done.push(all[i as int]));
            lemma_join_push(done, all[i as int]);
            assert forall|j: int| 0 <= j < next.len() implies (#[trigger] next[j]).len()
                <= u64::MAX by {
                if j < i {
                    assert(next[j] == done[j]);
                }
            }
        }
        push_frame(&mut out, items[i].as_slice());
        i = i + 1;
    }
    assert(all.subrange(0, i as int) =~= all);
    out
}

/// The bytes of a list that is stored on its own: the number of its items
/// as eight big-endian bytes, then the frames of its items. The empty
/// list is eight zero bytes, and the empty byte string is no list.
pub open spec fn counted_encoded<T: Codec>(items: Seq<T::V>) -> Seq<u8> {
    be64(items.len() as u64) + list_encoded::<T>(items)
}

/// The list that `bytes` stand for when it is stored on its own: the
/// items of the frames behind the first eight bytes, where these bytes
/// give their number.
pub open spec fn counted_decoded<T: Codec>(bytes: Seq<u8>) -> Option<Seq<T::V>> {
    if bytes.len() < 8 {
        None
    } else {
        match list_decoded::<T>(bytes.subrange(8, bytes.len() as int)) {
            Some(items) => if from_be64(bytes) == items.len() as u64 {
                Some(items)
            } else {
                None
            },
            None => None,
        }
    }
}

/// Decoding a list that is stored on its own undoes encoding it.
pub proof fn lemma_counted_round_trip<T: Codec>(items: Seq<T::V>)
    requires
        list_valid::<T>(items),
    ensures
        counted_decoded::<T>(counted_encoded::<T>(items)) == Some(items),
        counted_encoded::<T>(items).len() >= 8,
{
    let count = items.len() as u64;
    let bytes = counted_encoded::<T>(items);
    lemma_be64_round_trip(count);
    lemma_list_round_trip::<T>(items);
    assert(bytes.subrange(8, bytes.len() as int) =~= list_encoded::<T>(items));
    assert(forall|k: int| 0 <= k < 8 ==> bytes[k] == be64(count)[k]);
    assert(from_be64(bytes) == count);
}

/// The bytes of a list that is stored on its own.
pub fn encode_counted<T: Codec>(items: &Vec<T>) -> (out: Vec<u8>)
    ensures
        list_valid::<T>(views(items@)),
        out@ == counted_encoded::<T>(views(items@)),
{
    let mut out: Vec<u8> = Vec::new();
    push_be64(&mut out, items.len() as u64);
    let frames = encode_list(items);
    push_bytes(&mut out, frames.as_slice());
    assert(out@ =~= counted_encoded::<T>(views(items@)));
    out
}

/// Reads a list back that is stored on its own; `None` exactly where the
/// bytes stand for none.
pub fn decode_counted<T: Codec>(bytes: &[u8]) -> (r: Option<Vec<T>>)
    ensures
        match counted_decoded::<T>(bytes@) {
            Some(items) => r matches Some(v) && views(v@) == items,
            None => r is None,
        },
{
    if bytes.len() < 8 {
        return None;
    }
    let count = read_be64(bytes, 0);
    assert(from_be64(bytes@.subrange(0, 8)) == from_be64(bytes@)) by {
        assert(forall|k: int| 0 <= k < 8 ==> bytes@.subrange(0, 8)[k] == bytes@[k]);
    }
    match decode_list::<T>(slice_subrange(bytes, 8, bytes.len())) {
        Some(items) => {
            if items.len() as u64 == count {
                Some(items)
            } else {
                None
            }
        },
        None => None,
    }
}

} // verus!
