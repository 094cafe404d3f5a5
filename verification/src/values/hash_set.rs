//! A set of digests, kept and stored in ascending order.

use crate::codec::be::{be64, lemma_be64_canonical};
use crate::codec::frame::{lemma_join_split, split_frames};
use crate::codec::record::{
    counted_decoded, counted_encoded, decode_counted, encode_counted, encoded_items, frames_decoded,
    lemma_counted_round_trip, list_valid, views,
};
use crate::codec::show::corrupted;
use crate::codec::Codec;
use crate::error::StringErr;
use crate::lex::{
    bytes_lt, compare_bytes, lemma_lt_irreflexive, lemma_lt_total, lemma_lt_transitive, Order,
};
use crate::values::tx_db;
use vstd::array::array_as_slice;
use vstd::prelude::*;
use vstd::string::*;

verus! {

/// The byte strings of `s` ascend strictly.
pub open spec fn strictly_ascending(s: Seq<Seq<u8>>) -> bool {
    forall|i: int, j: int| 0 <= i < j < s.len() ==> bytes_lt(#[trigger] s[i], #[trigger] s[j])
}

/// The place of `h` in the ascending run `s`: the number of items of `s`
/// that come before `h`.
pub open spec fn rank(s: Seq<Seq<u8>>, h: Seq<u8>) -> int
    decreases s.len(),
{
    if s.len() == 0 {
        0
    } else if bytes_lt(s.last(), h) {
        s.len() as int
    } else {
        rank(s.drop_last(), h)
    }
}

/// The set `s` with `h` in it.
pub open spec fn set_with(s: Seq<Seq<u8>>, h: Seq<u8>) -> Seq<Seq<u8>> {
    if s.contains(h) {
        s
    } else {
        s.insert(rank(s, h), h)
    }
}

/// The set `s` without `h`.
pub open spec fn set_without(s: Seq<Seq<u8>>, h: Seq<u8>) -> Seq<Seq<u8>> {
    if s.contains(h) {
        s.remove(s.index_of(h))
    } else {
        s
    }
}

/// `at` is the place of `h` in `s`: what stands before it is below `h`,
/// what stands from it on is not.
pub open spec fn is_place(s: Seq<Seq<u8>>, h: Seq<u8>, at: int) -> bool {
    &&& 0 <= at <= s.len()
    &&& forall|i: int| 0 <= i < at ==> bytes_lt(#[trigger] s[i], h)
    &&& forall|i: int| at <= i < s.len() ==> !bytes_lt(#[trigger] s[i], h)
}

/// The place of `h` is its rank, and `h` is in the set exactly if it
/// stands at its place.
pub proof fn lemma_place(s: Seq<Seq<u8>>, h: Seq<u8>, at: int)
    requires
        strictly_ascending(s),
        is_place(s, h, at),
    ensures
        rank(s, h) == at,
        s.contains(h) <==> (at < s.len() && s[at] == h),
        s.contains(h) ==> s.index_of(h) == at,
    decreases s.len(),
{
    if s.len() > 0 {
        let front = s.drop_last();
        if bytes_lt(s.last(), h) {
            assert(at == s.len());
        } else {
            assert(at < s.len());
            assert(is_place(front, h, at)) by {
                assert forall|i: int| at <= i < front.len() implies !bytes_lt(
                    #[trigger] front[i],
                    h,
                ) by {
                    assert(front[i] == s[i]);
                }
                assert forall|i: int| 0 <= i < at implies bytes_lt(#[trigger] front[i], h) by {
                    assert(front[i] == s[i]);
                }
            }
            assert(strictly_ascending(front)) by {
                assert forall|i: int, j: int| 0 <= i < j < front.len() implies bytes_lt(
                    #[trigger] front[i],
                    #[trigger] front[j],
                ) by {
                    assert(front[i] == s[i] && front[j] == s[j]);
                }
            }
            lemma_place(front, h, at);
        }
    }
    lemma_lt_irreflexive(h);
    if s.contains(h) {
        let i = s.index_of(h);
        assert(s[i] == h);
        if i > at {
            assert(bytes_lt(s[at], s[i]));
        }
        assert(i == at);
    }
}

/// Putting a digest into a set and taking it out again leaves the set as
/// it was, if the digest was not in it.
pub proof fn lemma_with_without(s: Seq<Seq<u8>>, h: Seq<u8>)
    requires
        strictly_ascending(s),
        !s.contains(h),
    ensures
        set_without(set_with(s, h), h) == s,
{
    lemma_rank_is_place(s, h);
    let at = rank(s, h);
    let t = s.insert(at, h);
    assert(t[at] == h);
    assert(t.contains(h));
    lemma_inserted(s, h, at);
    lemma_place(t, h, at);
    assert(t.remove(at) =~= s);
}

/// Bytes that stand for a set of digests are the encoding of that set:
/// a set is stored in one way only.
pub proof fn lemma_set_canonical(bytes: Seq<u8>)
    requires
        HashBTSetV2::decoded(bytes) is Some,
    ensures
        HashBTSetV2::valid(HashBTSetV2::decoded(bytes).unwrap()),
        HashBTSetV2::encoded(HashBTSetV2::decoded(bytes).unwrap()) == bytes,
{
    let set = HashBTSetV2::decoded(bytes).unwrap();
    let rest = bytes.subrange(8, bytes.len() as int);
    let frames = split_frames(rest).unwrap();
    lemma_join_split(rest);
    assert(frames_decoded::<tx_db::Hash>(frames) == Some(set));
    assert forall|i: int| 0 <= i < set.len() implies set[i] == frames[i] && (
    #[trigger] set[i]).len() == 32 by {
        assert(<tx_db::Hash as Codec>::decoded(frames[i]) is Some);
    }
    assert(set =~= frames);
    assert(encoded_items::<tx_db::Hash>(set) =~= frames);
    lemma_be64_canonical(bytes);
    assert(be64(set.len() as u64) == bytes.subrange(0, 8));
    assert(bytes.subrange(0, 8) + rest =~= bytes);
}

/// The rank of a digest is its place.
pub proof fn lemma_rank_is_place(s: Seq<Seq<u8>>, h: Seq<u8>)
    requires
        strictly_ascending(s),
    ensures
        is_place(s, h, rank(s, h)),
    decreases s.len(),
{
    if s.len() > 0 {
        let front = s.drop_last();
        if bytes_lt(s.last(), h) {
            assert forall|i: int| 0 <= i < s.len() implies bytes_lt(#[trigger] s[i], h) by {
                if i < s.len() - 1 {
                    assert(bytes_lt(s[i], s[s.len() - 1]));
                    lemma_lt_transitive(s[i], s.last(), h);
                }
            }
        } else {
            assert(strictly_ascending(front)) by {
                assert forall|i: int, j: int| 0 <= i < j < front.len() implies bytes_lt(
                    #[trigger] front[i],
                    #[trigger] front[j],
                ) by {
                    assert(front[i] == s[i] && front[j] == s[j]);
                }
            }
            lemma_rank_is_place(front, h);
            let at = rank(front, h);
            assert forall|i: int| 0 <= i < at implies bytes_lt(#[trigger] s[i], h) by {
                assert(front[i] == s[i]);
            }
            assert forall|i: int| at <= i < s.len() implies !bytes_lt(#[trigger] s[i], h) by {
                if i < s.len() - 1 {
                    assert(front[i] == s[i]);
                }
            }
        }
    }
}

/// A digest put at its place leaves the run ascending and stands at its
/// place in the new run.
pub proof fn lemma_inserted(s: Seq<Seq<u8>>, h: Seq<u8>, at: int)
    requires
        strictly_ascending(s),
        is_place(s, h, at),
        !(at < s.len() && s[at] == h),
    ensures
        strictly_ascending(s.insert(at, h)),
        is_place(s.insert(at, h), h, at),
{
    let t = s.insert(at, h);
    lemma_lt_irreflexive(h);
    assert forall|i: int, j: int| 0 <= i < j < t.len() implies bytes_lt(
        #[trigger] t[i],
        #[trigger] t[j],
    ) by {
        if i == at {
            assert(t[j] == s[j - 1]);
            lemma_lt_total(s[j - 1], h);
            if j - 1 > at {
                assert(bytes_lt(s[at], s[j - 1]));
                if bytes_lt(s[j - 1], h) {
                    lemma_lt_transitive(s[at], s[j - 1], h);
                }
                if s[j - 1] == h {
                    assert(bytes_lt(s[at], h));
                }
            }
        } else if j == at {
            assert(t[i] == s[i]);
        } else {
            let a = if i < at { i } else { i - 1 };
            let b = if j < at { j } else { j - 1 };
            assert(t[i] == s[a] && t[j] == s[b]);
        }
    }
    assert forall|i: int| at <= i < t.len() implies !bytes_lt(#[trigger] t[i], h) by {
        if i > at {
            assert(t[i] == s[i - 1]);
        }
    }
    assert forall|i: int| 0 <= i < at implies bytes_lt(#[trigger] t[i], h) by {
        assert(t[i] == s[i]);
    }
}

/// Taking an item out of an ascending run leaves it ascending.
pub proof fn lemma_removed(s: Seq<Seq<u8>>, at: int)
    requires
        strictly_ascending(s),
        0 <= at < s.len(),
    ensures
        strictly_ascending(s.remove(at)),
{
    let t = s.remove(at);
    assert forall|i: int, j: int| 0 <= i < j < t.len() implies bytes_lt(
        #[trigger] t[i],
        #[trigger] t[j],
    ) by {
        let a = if i < at { i } else { i + 1 };
        let b = if j < at { j } else { j + 1 };
        assert(t[i] == s[a] && t[j] == s[b]);
    }
}

/// A run in which each item is below the next one ascends strictly.
pub proof fn lemma_neighbours(s: Seq<Seq<u8>>)
    requires
        forall|i: int| 0 <= i < s.len() - 1 ==> bytes_lt(#[trigger] s[i], s[i + 1]),
    ensures
        strictly_ascending(s),
{
    assert forall|i: int, j: int| 0 <= i < j < s.len() implies bytes_lt(
        #[trigger] s[i],
        #[trigger] s[j],
    ) by {
        lemma_neighbours_between(s, i, j);
    }
}

proof fn lemma_neighbours_between(s: Seq<Seq<u8>>, i: int, j: int)
    requires
        forall|k: int| 0 <= k < s.len() - 1 ==> bytes_lt(#[trigger] s[k], s[k + 1]),
        0 <= i < j < s.len(),
    ensures
        bytes_lt(s[i], s[j]),
    decreases j - i,
{
    if j > i + 1 {
        lemma_neighbours_between(s, i, j - 1);
        assert(bytes_lt(s[j - 1], s[j - 1 + 1]));
        lemma_lt_transitive(s[i], s[j - 1], s[j]);
    } else {
        assert(bytes_lt(s[i], s[i + 1]));
    }
}

/// A set of digests.
///
/// Stored as the number of its digests, eight big-endian bytes, and then
/// one frame for each digest, in ascending order. This is the library's
/// own format: what another program has stored in another format cannot
/// be read with it.
#[derive(Debug, PartialEq, Eq)]
pub struct HashBTSetV2 {
    hashes: Vec<tx_db::Hash>,
}

impl View for HashBTSetV2 {
    type V = Seq<Seq<u8>>;

    closed spec fn view(&self) -> Seq<Seq<u8>> {
        views(self.hashes@)
    }
}

impl HashBTSetV2 {
    #[verifier::type_invariant]
    spec fn inv(self) -> bool {
        strictly_ascending(views(self.hashes@))
    }

    /// The empty set.
    pub fn new() -> (set: Self)
        ensures
            set@ == Seq::<Seq<u8>>::empty(),
    {
        let set = HashBTSetV2 { hashes: Vec::new() };
        assert(set@ =~= Seq::<Seq<u8>>::empty());
        set
    }

    /// How many digests are in the set.
    pub fn len(&self) -> (n: usize)
        ensures
            n == self@.len(),
    {
        self.hashes.len()
    }

    /// The digests in ascending order.
    pub fn to_vec(&self) -> (all: Vec<tx_db::Hash>)
        ensures
            views(all@) == self@,
    {
        self.hashes.clone()
    }

    /// The place of `hash` in the set.
    fn place(&self, hash: &tx_db::Hash) -> (at: usize)
        ensures
            is_place(self@, hash@, at as int),
    {
        let ghost s = self@;
        let mut at: usize = 0;
        while at < self.hashes.len()
            invariant
                s == views(self.hashes@),
                at <= s.len(),
                forall|i: int| 0 <= i < at ==> bytes_lt(#[trigger] s[i], hash@),
            decreases self.hashes.len() - at,
        {
            assert(s[at as int] == self.hashes@[at as int]@);
            let order = compare_bytes(array_as_slice(&self.hashes[at]), array_as_slice(hash));
            if order != Order::Less {
                proof {
                    use_type_invariant(self);
                    assert forall|i: int| at <= i < s.len() implies !bytes_lt(
                        #[trigger] s[i],
                        hash@,
                    ) by {
                        if i > at && bytes_lt(s[i], hash@) {
                            assert(bytes_lt(s[at as int], s[i]));
                            lemma_lt_transitive(s[at as int], s[i], hash@);
                        }
                    }
                }
                return at;
            }
            at = at + 1;
        }
        at
    }

    /// Whether `hash` is in the set.
    pub fn contains(&self, hash: &tx_db::Hash) -> (found: bool)
        ensures
            found == self@.contains(hash@),
    {
        let at = self.place(hash);
        proof {
            use_type_invariant(self);
            lemma_place(self@, hash@, at as int);
        }
        if at < self.hashes.len() {
            assert(self@[at as int] == self.hashes@[at as int]@);
            compare_bytes(array_as_slice(&self.hashes[at]), array_as_slice(hash)) == Order::Equal
        } else {
            false
        }
    }

    /// Puts `hash` into the set; says whether it was new.
    pub fn insert(&mut self, hash: tx_db::Hash) -> (new: bool)
        ensures
            final(self)@ == set_with(old(self)@, hash@),
            new == !old(self)@.contains(hash@),
    {
        let at = self.place(&hash);
        let ghost s = self@;
        proof {
            use_type_invariant(&*self);
            lemma_place(s, hash@, at as int);
        }
        if at < self.hashes.len() {
            assert(s[at as int] == self.hashes@[at as int]@);
            if compare_bytes(array_as_slice(&self.hashes[at]), array_as_slice(&hash))
                == Order::Equal {
                return false;
            }
        }
        proof {
            lemma_inserted(s, hash@, at as int);
            assert(views(self.hashes@.insert(at as int, hash)) =~= s.insert(at as int, hash@));
        }
        let mut hashes: Vec<tx_db::Hash> = Vec::new();
        std::mem::swap(&mut hashes, &mut self.hashes);
        hashes.insert(at, hash);
        self.hashes = hashes;
        true
    }

    /// Takes `hash` out of the set; says whether it was there.
    pub fn remove(&mut self, hash: &tx_db::Hash) -> (found: bool)
        ensures
            final(self)@ == set_without(old(self)@, hash@),
            found == old(self)@.contains(hash@),
    {
        let at = self.place(hash);
        let ghost s = self@;
        proof {
            use_type_invariant(&*self);
            lemma_place(s, hash@, at as int);
        }
        if at < self.hashes.len() {
            assert(s[at as int] == self.hashes@[at as int]@);
            if compare_bytes(array_as_slice(&self.hashes[at]), array_as_slice(hash))
                == Order::Equal {
                proof {
                    lemma_removed(s, at as int);
                    assert(views(self.hashes@.remove(at as int)) =~= s.remove(at as int));
                }
                let mut hashes: Vec<tx_db::Hash> = Vec::new();
                std::mem::swap(&mut hashes, &mut self.hashes);
                let _ = hashes.remove(at);
                self.hashes = hashes;
                return true;
            }
        }
        false
    }
}

impl Clone for HashBTSetV2 {
    fn clone(&self) -> (copy: Self)
        ensures
            copy@ == self@,
    {
        proof {
            use_type_invariant(self);
        }
        HashBTSetV2 { hashes: self.to_vec() }
    }
}

impl Codec for HashBTSetV2 {
    open spec fn valid(v: Seq<Seq<u8>>) -> bool {
        strictly_ascending(v) && list_valid::<tx_db::Hash>(v)
    }

    open spec fn encoded(v: Seq<Seq<u8>>) -> Seq<u8> {
        counted_encoded::<tx_db::Hash>(v)
    }

    open spec fn decoded(bytes: Seq<u8>) -> Option<Seq<Seq<u8>>> {
        match counted_decoded::<tx_db::Hash>(bytes) {
            Some(v) => if strictly_ascending(v) {
                Some(v)
            } else {
                None
            },
            None => None,
        }
    }

    proof fn lemma_round_trip(v: Seq<Seq<u8>>) {
        lemma_counted_round_trip::<tx_db::Hash>(v);
    }

    fn as_bytes(&self) -> (bytes: Vec<u8>) {
        proof {
            use_type_invariant(self);
        }
        encode_counted(&self.hashes)
    }

    fn from_bytes(bytes: &[u8]) -> (r: Result<Self, StringErr>) {
        let hashes = match decode_counted::<tx_db::Hash>(bytes) {
            Some(hashes) => hashes,
            None => {
                return Err(corrupted("damaged set of digests", bytes));
            },
        };
        let ghost s = views(hashes@);
        let mut i: usize = 1;
        while i < hashes.len()
            invariant
                1 <= i,
                s == views(hashes@),
                counted_decoded::<tx_db::Hash>(bytes@) == Some(s),
                forall|k: int| 0 <= k < i - 1 ==> bytes_lt(#[trigger] s[k], s[k + 1]),
            decreases hashes.len() - i,
        {
            assert(s[i as int] == hashes@[i as int]@ && s[i - 1] == hashes@[i - 1]@);
            if compare_bytes(array_as_slice(&hashes[i - 1]), array_as_slice(&hashes[i]))
                != Order::Less {
                assert(!strictly_ascending(s));
                return Err(corrupted("digests out of order", bytes));
            }
            i = i + 1;
        }
        proof {
            lemma_neighbours(s);
        }
        Ok(HashBTSetV2 { hashes })
    }
}

} // verus!
