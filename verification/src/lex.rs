//! The byte-lexicographic order, in which every collection keeps its keys.

use vstd::prelude::*;

verus! {

/// How one byte string stands to another.
#[derive(Clone, Copy, Debug, PartialEq, Eq, Structural)]
pub enum Order {
    Less,
    Equal,
    Greater,
}

/// `a` is below `b` when the two are read from position `i` on, the bytes
/// before `i` being taken as equal.
pub open spec fn lt_from(a: Seq<u8>, b: Seq<u8>, i: int) -> bool
    decreases b.len() - i,
{
    if i < 0 || i >= b.len() {
        false
    } else if i >= a.len() {
        true
    } else if a[i] != b[i] {
        a[i] < b[i]
    } else {
        lt_from(a, b, i + 1)
    }
}

/// `a` comes strictly before `b` in byte-lexicographic order: at the first
/// position where they differ `a` has the smaller byte, or `a` is a proper
/// prefix of `b`.
pub open spec fn bytes_lt(a: Seq<u8>, b: Seq<u8>) -> bool {
    lt_from(a, b, 0)
}

/// `a` comes before `b` or is `b`.
pub open spec fn bytes_le(a: Seq<u8>, b: Seq<u8>) -> bool {
    a == b || bytes_lt(a, b)
}

/// The first `i` bytes of `a` and `b` are the same.
pub open spec fn same_prefix(a: Seq<u8>, b: Seq<u8>, i: int) -> bool {
    &&& 0 <= i <= a.len()
    &&& i <= b.len()
    &&& forall|j: int| 0 <= j < i ==> a[j] == b[j]
}

proof fn lemma_irreflexive_from(a: Seq<u8>, i: int)
    requires
        0 <= i,
    ensures
        !lt_from(a, a, i),
    decreases a.len() - i,
{
    if i < a.len() {
        lemma_irreflexive_from(a, i + 1);
    }
}

/// No byte string comes before itself.
pub proof fn lemma_lt_irreflexive(a: Seq<u8>)
    ensures
        !bytes_lt(a, a),
{
    lemma_irreflexive_from(a, 0);
}

proof fn lemma_total_from(a: Seq<u8>, b: Seq<u8>, i: int)
    requires
        same_prefix(a, b, i),
    ensures
        lt_from(a, b, i) || lt_from(b, a, i) || a == b,
        !(lt_from(a, b, i) && lt_from(b, a, i)),
        a == b ==> !lt_from(a, b, i),
    decreases a.len() + b.len() - 2 * i,
{
    if i >= a.len() || i >= b.len() {
        if i >= a.len() && i >= b.len() {
            assert(a =~= b);
        }
    } else if a[i] == b[i] {
        lemma_total_from(a, b, i + 1);
    }
}

/// Of two byte strings exactly one holds: the first comes before the
/// second, the second before the first, or they are the same.
pub proof fn lemma_lt_total(a: Seq<u8>, b: Seq<u8>)
    ensures
        bytes_lt(a, b) || bytes_lt(b, a) || a == b,
        !(bytes_lt(a, b) && bytes_lt(b, a)),
        a == b ==> !bytes_lt(a, b),
{
    lemma_total_from(a, b, 0);
}

proof fn lemma_transitive_from(a: Seq<u8>, b: Seq<u8>, c: Seq<u8>, i: int)
    requires
        same_prefix(a, b, i),
        same_prefix(b, c, i),
        lt_from(a, b, i),
        lt_from(b, c, i),
    ensures
        lt_from(a, c, i),
    decreases c.len() - i,
{
    if i < a.len() && a[i] == b[i] && b[i] == c[i] {
        lemma_transitive_from(a, b, c, i + 1);
    }
}

/// The order is transitive.
pub proof fn lemma_lt_transitive(a: Seq<u8>, b: Seq<u8>, c: Seq<u8>)
    requires
        bytes_lt(a, b),
        bytes_lt(b, c),
    ensures
        bytes_lt(a, c),
{
    lemma_transitive_from(a, b, c, 0);
}

/// Compares two byte strings in byte-lexicographic order.
pub fn compare_bytes(a: &[u8], b: &[u8]) -> (order: Order)
    ensures
        order == Order::Less <==> bytes_lt(a@, b@),
        order == Order::Equal <==> a@ == b@,
        order == Order::Greater <==> bytes_lt(b@, a@),
{
    let mut i: usize = 0;
    while i < a.len() && i < b.len()
        invariant
            same_prefix(a@, b@, i as int),
        decreases a.len() - i,
    {
        if a[i] < b[i] {
            proof {
                lemma_total_from(a@, b@, i as int);
                lemma_unfold_to(a@, b@, i as int);
                lemma_unfold_to(b@, a@, i as int);
                lemma_lt_total(a@, b@);
            }
            return Order::Less;
        }
        if a[i] > b[i] {
            proof {
                lemma_total_from(a@, b@, i as int);
                lemma_unfold_to(a@, b@, i as int);
                lemma_unfold_to(b@, a@, i as int);
                lemma_lt_total(a@, b@);
            }
            return Order::Greater;
        }
        i = i + 1;
    }
    proof {
        lemma_total_from(a@, b@, i as int);
        lemma_unfold_to(a@, b@, i as int);
        lemma_unfold_to(b@, a@, i as int);
        lemma_lt_total(a@, b@);
    }
    if i < b.len() {
        Order::Less
    } else if i < a.len() {
        Order::Greater
    } else {
        Order::Equal
    }
}

/// Reading from the start is the same as reading from the end of a common
/// prefix.
proof fn lemma_unfold_to(a: Seq<u8>, b: Seq<u8>, i: int)
    requires
        same_prefix(a, b, i),
    ensures
        bytes_lt(a, b) == lt_from(a, b, i),
{
    lemma_unfold_between(a, b, 0, i);
}

proof fn lemma_unfold_between(a: Seq<u8>, b: Seq<u8>, j: int, i: int)
    requires
        same_prefix(a, b, i),
        0 <= j <= i,
    ensures
        lt_from(a, b, j) == lt_from(a, b, i),
    decreases i - j,
{
    if j < i {
        lemma_unfold_between(a, b, j + 1, i);
    }
}

proof fn lemma_shift(p: Seq<u8>, x: Seq<u8>, y: Seq<u8>, j: int)
    requires
        0 <= j,
    ensures
        lt_from(p + x, p + y, p.len() + j) == lt_from(x, y, j),
    decreases y.len() - j,
{
    if j < y.len() {
        assert((p + y)[p.len() + j] == y[j]);
        if j < x.len() {
            assert((p + x)[p.len() + j] == x[j]);
            lemma_shift(p, x, y, j + 1);
        }
    }
}

proof fn lemma_concat_from(a: Seq<u8>, x: Seq<u8>, b: Seq<u8>, y: Seq<u8>, i: int)
    requires
        a.len() == b.len(),
        same_prefix(a, b, i),
    ensures
        lt_from(a + x, b + y, i) <==> (lt_from(a, b, i) || (a == b && bytes_lt(x, y))),
    decreases a.len() - i,
{
    if i < a.len() {
        assert((a + x)[i] == a[i]);
        assert((b + y)[i] == b[i]);
        if a[i] == b[i] {
            lemma_concat_from(a, x, b, y, i + 1);
        } else {
            assert(a != b);
        }
    } else {
        assert(a =~= b);
        lemma_shift(a, x, y, 0);
    }
}

/// Two byte strings that begin with parts of the same length are ordered
/// by those parts, and by what follows where the parts are the same.
pub proof fn lemma_lt_concat(a: Seq<u8>, x: Seq<u8>, b: Seq<u8>, y: Seq<u8>)
    requires
        a.len() == b.len(),
    ensures
        bytes_lt(a + x, b + y) <==> (bytes_lt(a, b) || (a == b && bytes_lt(x, y))),
{
    lemma_concat_from(a, x, b, y, 0);
}

} // verus!
