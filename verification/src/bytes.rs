//! Byte strings: where a byte first and last occurs, and how to cut at it.

use vstd::prelude::*;
use vstd::slice::slice_subrange;

verus! {

/// Position of the first `b` in `s`; `s.len()` when `s` holds none.
pub open spec fn first_index_of(s: Seq<u8>, b: u8) -> int
    decreases s.len(),
{
    if s.len() == 0 {
        0
    } else if s[0] == b {
        0
    } else {
        1 + first_index_of(s.drop_first(), b)
    }
}

/// Position of the last `b` in `s`; `-1` when `s` holds none.
pub open spec fn last_index_of(s: Seq<u8>, b: u8) -> int
    decreases s.len(),
{
    if s.len() == 0 {
        -1
    } else if s.last() == b {
        s.len() - 1
    } else {
        last_index_of(s.drop_last(), b)
    }
}

/// Whether two `b` stand side by side at `i` in `s`.
pub open spec fn pair_at(s: Seq<u8>, b: u8, i: int) -> bool {
    0 <= i && i + 1 < s.len() && s[i] == b && s[i + 1] == b
}

/// Position of the first two `b` side by side in `s`; `s.len()` when `s`
/// holds no such pair.
pub open spec fn first_pair_of(s: Seq<u8>, b: u8) -> int
    decreases s.len(),
{
    if s.len() < 2 {
        s.len() as int
    } else if s[0] == b && s[1] == b {
        0
    } else {
        1 + first_pair_of(s.drop_first(), b)
    }
}

/// `s` cut at its first pair of `b`: what stands before the pair and what
/// stands behind it; `None` when `s` holds no such pair.
pub open spec fn cut_at_first_pair(s: Seq<u8>, b: u8) -> Option<(Seq<u8>, Seq<u8>)> {
    let i = first_pair_of(s, b);
    if 0 <= i < s.len() {
        Some((s.take(i), s.skip(i + 2)))
    } else {
        None
    }
}

/// `first_pair_of` is in range, no pair begins before it, and it points at a
/// pair unless it is the length.
pub proof fn lemma_first_pair_of(s: Seq<u8>, b: u8)
    ensures
        0 <= first_pair_of(s, b) <= s.len(),
        forall|j: int| 0 <= j < first_pair_of(s, b) ==> !#[trigger] pair_at(s, b, j),
        first_pair_of(s, b) < s.len() ==> pair_at(s, b, first_pair_of(s, b)),
    decreases s.len(),
{
    if s.len() >= 2 && !(s[0] == b && s[1] == b) {
        let t = s.drop_first();
        lemma_first_pair_of(t, b);
        let p = first_pair_of(s, b);
        assert forall|j: int| 0 <= j < p implies !#[trigger] pair_at(s, b, j) by {
            if j > 0 && j + 1 < s.len() {
                assert(!pair_at(t, b, j - 1));
                assert(s[j] == t[j - 1]);
                assert(s[j + 1] == t[j]);
            }
        }
        if p < s.len() {
            assert(pair_at(t, b, p - 1));
            assert(s[p] == t[p - 1]);
            assert(s[p + 1] == t[p]);
        }
    }
}

/// The position that the three properties of `lemma_first_pair_of` describe
/// is unique.
pub proof fn lemma_first_pair_is(s: Seq<u8>, b: u8, i: int)
    requires
        0 <= i <= s.len(),
        forall|j: int| 0 <= j < i ==> !#[trigger] pair_at(s, b, j),
        i < s.len() ==> pair_at(s, b, i),
    ensures
        first_pair_of(s, b) == i,
{
    lemma_first_pair_of(s, b);
    let f = first_pair_of(s, b);
    if f < i {
        assert(pair_at(s, b, f));
    } else if i < f {
        assert(pair_at(s, b, i));
    }
}

/// `s` cut at its first `b`: what stands before it and what stands behind it;
/// `None` when `s` holds no `b`.
pub open spec fn cut_at_first(s: Seq<u8>, b: u8) -> Option<(Seq<u8>, Seq<u8>)> {
    let i = first_index_of(s, b);
    if 0 <= i < s.len() {
        Some((s.take(i), s.skip(i + 1)))
    } else {
        None
    }
}

/// `s` cut at its last `b`: what stands before it and what stands behind it;
/// `None` when `s` holds no `b`.
pub open spec fn cut_at_last(s: Seq<u8>, b: u8) -> Option<(Seq<u8>, Seq<u8>)> {
    let i = last_index_of(s, b);
    if 0 <= i < s.len() {
        Some((s.take(i), s.skip(i + 1)))
    } else {
        None
    }
}

/// `first_index_of` is in range, nothing before it is `b`, and it points at a
/// `b` unless it is the length.
pub proof fn lemma_first_index_of(s: Seq<u8>, b: u8)
    ensures
        0 <= first_index_of(s, b) <= s.len(),
        forall|j: int| 0 <= j < first_index_of(s, b) ==> s[j] != b,
        first_index_of(s, b) < s.len() ==> s[first_index_of(s, b)] == b,
    decreases s.len(),
{
    if s.len() != 0 && s[0] != b {
        let t = s.drop_first();
        lemma_first_index_of(t, b);
        assert forall|j: int| 0 <= j < first_index_of(s, b) implies s[j] != b by {
            if j > 0 {
                assert(s[j] == t[j - 1]);
            }
        }
        if first_index_of(s, b) < s.len() {
            assert(s[first_index_of(s, b)] == t[first_index_of(t, b)]);
        }
    }
}

/// The position that the three properties of `lemma_first_index_of` describe
/// is unique.
pub proof fn lemma_first_index_is(s: Seq<u8>, b: u8, i: int)
    requires
        0 <= i <= s.len(),
        forall|j: int| 0 <= j < i ==> s[j] != b,
        i < s.len() ==> s[i] == b,
    ensures
        first_index_of(s, b) == i,
{
    lemma_first_index_of(s, b);
    let f = first_index_of(s, b);
    if f < i {
        assert(s[f] == b);
    } else if i < f {
        assert(s[i] == b);
    }
}

/// `last_index_of` is in range, nothing after it is `b`, and it points at a
/// `b` unless it is `-1`.
pub proof fn lemma_last_index_of(s: Seq<u8>, b: u8)
    ensures
        -1 <= last_index_of(s, b) < s.len(),
        forall|j: int| last_index_of(s, b) < j < s.len() ==> s[j] != b,
        0 <= last_index_of(s, b) ==> s[last_index_of(s, b)] == b,
    decreases s.len(),
{
    if s.len() != 0 && s.last() != b {
        let t = s.drop_last();
        lemma_last_index_of(t, b);
        assert forall|j: int| last_index_of(s, b) < j < s.len() implies s[j] != b by {
            if j < s.len() - 1 {
                assert(s[j] == t[j]);
            }
        }
        if 0 <= last_index_of(s, b) {
            assert(s[last_index_of(s, b)] == t[last_index_of(t, b)]);
        }
    }
}

/// The position that the three properties of `lemma_last_index_of` describe
/// is unique.
pub proof fn lemma_last_index_is(s: Seq<u8>, b: u8, i: int)
    requires
        -1 <= i < s.len(),
        forall|j: int| i < j < s.len() ==> s[j] != b,
        0 <= i ==> s[i] == b,
    ensures
        last_index_of(s, b) == i,
{
    lemma_last_index_of(s, b);
    let l = last_index_of(s, b);
    if l < i {
        assert(s[i] == b);
    } else if i < l {
        assert(s[l] == b);
    }
}

/// Whether `s` holds no `b`.
pub open spec fn free_of(s: Seq<u8>, b: u8) -> bool {
    forall|i: int| 0 <= i < s.len() ==> #[trigger] s[i] != b
}

/// What was cut apart goes together again, and the first part holds no `b`.
pub proof fn lemma_cut_at_first(s: Seq<u8>, b: u8)
    ensures
        match cut_at_first(s, b) {
            Some((head, tail)) => s == head + seq![b] + tail && free_of(head, b),
            None => free_of(s, b),
        },
{
    lemma_first_index_of(s, b);
    if let Some((head, tail)) = cut_at_first(s, b) {
        assert(s =~= head + seq![b] + tail);
    }
}

/// A string that was joined with `b`, behind a part that holds no `b`, is cut
/// where it was joined.
pub proof fn lemma_cut_at_first_joined(head: Seq<u8>, b: u8, tail: Seq<u8>)
    requires
        free_of(head, b),
    ensures
        cut_at_first(head + seq![b] + tail, b) == Some((head, tail)),
{
    let s = head + seq![b] + tail;
    assert forall|j: int| 0 <= j < head.len() implies s[j] != b by {
        assert(s[j] == head[j]);
    }
    lemma_first_index_is(s, b, head.len() as int);
    assert(s.take(head.len() as int) =~= head);
    assert(s.skip(head.len() as int + 1) =~= tail);
}

/// A string without `b` cannot be cut at one.
pub proof fn lemma_cut_at_first_none(s: Seq<u8>, b: u8)
    requires
        free_of(s, b),
    ensures
        cut_at_first(s, b) is None,
{
    lemma_first_index_is(s, b, s.len() as int);
}

/// What was cut apart goes together again, and the last part holds no `b`.
pub proof fn lemma_cut_at_last(s: Seq<u8>, b: u8)
    ensures
        match cut_at_last(s, b) {
            Some((head, tail)) => s == head + seq![b] + tail && free_of(tail, b),
            None => free_of(s, b),
        },
{
    lemma_last_index_of(s, b);
    if let Some((head, tail)) = cut_at_last(s, b) {
        assert(s =~= head + seq![b] + tail);
        let i = last_index_of(s, b);
        assert forall|j: int| 0 <= j < tail.len() implies #[trigger] tail[j] != b by {
            assert(tail[j] == s[i + 1 + j]);
        }
    }
}

/// A string that was joined with `b`, in front of a part that holds no `b`, is
/// cut where it was joined.
pub proof fn lemma_cut_at_last_joined(head: Seq<u8>, b: u8, tail: Seq<u8>)
    requires
        free_of(tail, b),
    ensures
        cut_at_last(head + seq![b] + tail, b) == Some((head, tail)),
{
    let s = head + seq![b] + tail;
    assert forall|j: int| head.len() < j < s.len() implies s[j] != b by {
        assert(s[j] == tail[j - head.len() - 1]);
    }
    lemma_last_index_is(s, b, head.len() as int);
    assert(s.take(head.len() as int) =~= head);
    assert(s.skip(head.len() as int + 1) =~= tail);
}

/// Finds the first `b` in `s`.
pub fn find_first(s: &[u8], b: u8) -> (i: usize)
    ensures
        i == first_index_of(s@, b),
{
    let mut i: usize = 0;
    while i < s.len() && s[i] != b
        invariant
            i <= s.len(),
            forall|j: int| 0 <= j < i ==> s@[j] != b,
        decreases s.len() - i,
    {
        i += 1;
    }
    proof {
        lemma_first_index_is(s@, b, i as int);
    }
    i
}

/// Finds the last `b` in `s`.
pub fn find_last(s: &[u8], b: u8) -> (r: Option<usize>)
    ensures
        match r {
            Some(i) => i == last_index_of(s@, b) && i < s@.len(),
            None => last_index_of(s@, b) == -1,
        },
{
    let mut i: usize = s.len();
    while i > 0 && s[i - 1] != b
        invariant
            i <= s.len(),
            forall|j: int| i <= j < s.len() ==> s@[j] != b,
        decreases i,
    {
        i -= 1;
    }
    proof {
        lemma_last_index_is(s@, b, i as int - 1);
    }
    if i == 0 {
        None
    } else {
        Some(i - 1)
    }
}

/// Cuts `s` at its first `b`.
pub fn split_first(s: &[u8], b: u8) -> (r: Option<(&[u8], &[u8])>)
    ensures
        match r {
            Some((head, tail)) => cut_at_first(s@, b) == Some((head@, tail@)),
            None => cut_at_first(s@, b) is None,
        },
{
    let i = find_first(s, b);
    proof {
        lemma_first_index_of(s@, b);
    }
    if i < s.len() {
        Some((slice_subrange(s, 0, i), slice_subrange(s, i + 1, s.len())))
    } else {
        None
    }
}

/// Cuts `s` at its first pair of `b`.
pub fn split_first_pair(s: &[u8], b: u8) -> (r: Option<(&[u8], &[u8])>)
    ensures
        match r {
            Some((head, tail)) => cut_at_first_pair(s@, b) == Some((head@, tail@)),
            None => cut_at_first_pair(s@, b) is None,
        },
{
    let n = s.len();
    let mut i: usize = 0;
    while i < n && !(i + 1 < n && s[i] == b && s[i + 1] == b)
        invariant
            n == s.len(),
            i <= n,
            forall|j: int| 0 <= j < i ==> !#[trigger] pair_at(s@, b, j),
        decreases n - i,
    {
        i += 1;
    }
    if i < n {
        proof {
            lemma_first_pair_is(s@, b, i as int);
        }
        Some((slice_subrange(s, 0, i), slice_subrange(s, i + 2, n)))
    } else {
        proof {
            lemma_first_pair_is(s@, b, n as int);
        }
        None
    }
}

/// Cuts `s` at its last `b`.
pub fn split_last(s: &[u8], b: u8) -> (r: Option<(&[u8], &[u8])>)
    ensures
        match r {
            Some((head, tail)) => cut_at_last(s@, b) == Some((head@, tail@)),
            None => cut_at_last(s@, b) is None,
        },
{
    let n = s.len();
    match find_last(s, b) {
        Some(i) => Some((slice_subrange(s, 0, i), slice_subrange(s, i + 1, n))),
        None => None,
    }
}

/// Whether `s` begins with `p`.
pub fn has_prefix(s: &[u8], p: &[u8]) -> (r: bool)
    ensures
        r == p@.is_prefix_of(s@),
{
    if p.len() > s.len() {
        return false;
    }
    let mut i: usize = 0;
    while i < p.len()
        invariant
            i <= p.len() <= s.len(),
            forall|j: int| 0 <= j < i ==> s@[j] == p@[j],
        decreases p.len() - i,
    {
        if s[i] != p[i] {
            assert(s@.subrange(0, p@.len() as int)[i as int] != p@[i as int]);
            return false;
        }
        i += 1;
    }
    assert(p@ =~= s@.subrange(0, p@.len() as int));
    true
}

/// Whether `s` holds `b`.
pub fn contains_byte(s: &[u8], b: u8) -> (r: bool)
    ensures
        r == s@.contains(b),
{
    let i = find_first(s, b);
    proof {
        lemma_first_index_of(s@, b);
    }
    i < s.len()
}

/// Whether two byte strings are the same.
pub fn same_bytes(a: &[u8], b: &[u8]) -> (r: bool)
    ensures
        r == (a@ == b@),
{
    if a.len() != b.len() {
        return false;
    }
    let r = has_prefix(a, b);
    assert(a@.subrange(0, b@.len() as int) =~= a@);
    r
}

} // verus!
