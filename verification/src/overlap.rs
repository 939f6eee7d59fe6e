//! The overlap detector: the longest suffix of one sequence that is a prefix
//! of another, up to a bound.

use vstd::prelude::*;
use crate::text::chars_of;

verus! {

/// The longest overlap that the bound `k` and the two lengths allow:
/// the least of `k`, `a.len()` and `b.len()`.
pub open spec fn overlap_limit(a: Seq<char>, b: Seq<char>, k: nat) -> nat {
    if k <= a.len() && k <= b.len() {
        k
    } else if a.len() <= b.len() {
        a.len()
    } else {
        b.len()
    }
}

/// The last `i` characters of `a` are the first `i` characters of `b`.
pub open spec fn overlaps_by(a: Seq<char>, b: Seq<char>, i: nat) -> bool {
    &&& i <= a.len()
    &&& i <= b.len()
    &&& a.subrange(a.len() - i, a.len() as int) == b.subrange(0, i as int)
}

/// The largest `i <= m` with `overlaps_by(a, b, i)`; the empty overlap always
/// qualifies, so this is 0 when no longer one does.
pub open spec fn longest_overlap_within(a: Seq<char>, b: Seq<char>, m: nat) -> nat
    decreases m,
{
    if m == 0 {
        0
    } else if overlaps_by(a, b, m) {
        m
    } else {
        longest_overlap_within(a, b, (m - 1) as nat)
    }
}

/// The overlap of `a` followed by `b` under the bound `k`: the length of the
/// longest suffix of `a`, of at most `overlap_limit(a, b, k)` characters, that
/// is a prefix of `b`.
pub open spec fn longest_overlap(a: Seq<char>, b: Seq<char>, k: nat) -> nat {
    longest_overlap_within(a, b, overlap_limit(a, b, k))
}

/// `longest_overlap_within(a, b, m)` is an overlap of at most `m` characters,
/// and no longer one of at most `m` characters exists.
pub proof fn lemma_longest_overlap_within(a: Seq<char>, b: Seq<char>, m: nat)
    requires
        m <= a.len(),
        m <= b.len(),
    ensures
        longest_overlap_within(a, b, m) <= m,
        overlaps_by(a, b, longest_overlap_within(a, b, m)),
        forall|i: nat|
            longest_overlap_within(a, b, m) < i <= m ==> !overlaps_by(a, b, i),
    decreases m,
{
    if m == 0 {
        assert(a.subrange(a.len() - 0, a.len() as int) =~= b.subrange(0, 0));
    } else if !overlaps_by(a, b, m) {
        lemma_longest_overlap_within(a, b, (m - 1) as nat);
    }
}

/// An overlap never exceeds the bound nor the length of either sequence.
pub proof fn lemma_overlap_bounded(a: Seq<char>, b: Seq<char>, k: nat)
    ensures
        longest_overlap(a, b, k) <= k,
        longest_overlap(a, b, k) <= a.len(),
        longest_overlap(a, b, k) <= b.len(),
        longest_overlap(a, b, k) <= overlap_limit(a, b, k),
{
    lemma_longest_overlap_within(a, b, overlap_limit(a, b, k));
}

/// The overlap is a true one, and the longest within the limit: the last
/// `longest_overlap(a, b, k)` characters of `a` are the first as many of `b`,
/// and that holds of no greater length up to `overlap_limit(a, b, k)`.
pub proof fn lemma_overlap_is_longest(a: Seq<char>, b: Seq<char>, k: nat)
    ensures
        overlaps_by(a, b, longest_overlap(a, b, k)),
        forall|i: nat|
            longest_overlap(a, b, k) < i <= overlap_limit(a, b, k) ==> !overlaps_by(a, b, i),
{
    lemma_longest_overlap_within(a, b, overlap_limit(a, b, k));
}

/// A length within the limit that overlaps, and above which none within the
/// limit does, is the overlap.
pub proof fn lemma_overlap_unique(a: Seq<char>, b: Seq<char>, k: nat, len: nat)
    requires
        len <= overlap_limit(a, b, k),
        overlaps_by(a, b, len),
        forall|i: nat| len < i <= overlap_limit(a, b, k) ==> !overlaps_by(a, b, i),
    ensures
        len == longest_overlap(a, b, k),
{
    lemma_longest_overlap_within(a, b, overlap_limit(a, b, k));
}

/// Under the bound 0 nothing overlaps.
pub proof fn lemma_overlap_zero_bound(a: Seq<char>, b: Seq<char>)
    ensures
        longest_overlap(a, b, 0) == 0,
{
}

/// An empty sequence overlaps with nothing, on either side.
pub proof fn lemma_overlap_empty(a: Seq<char>, b: Seq<char>, k: nat)
    requires
        a.len() == 0 || b.len() == 0,
    ensures
        longest_overlap(a, b, k) == 0,
{
}

/// Whether the last `i` characters of `a` are the first `i` characters of `b`.
pub fn suffix_matches_prefix(a: &[char], b: &[char], i: usize) -> (matches: bool)
    requires
        i <= a@.len(),
        i <= b@.len(),
    ensures
        matches == overlaps_by(a@, b@, i as nat),
{
    let start: usize = a.len() - i;
    let mut t: usize = 0;
    while t < i
        invariant
            t <= i,
            i <= b@.len(),
            start + i == a.len(),
            forall|u: int| 0 <= u < t ==> a@[start + u] == b@[u],
        decreases i - t,
    {
        if a[start + t] != b[t] {
            proof {
                let x = a@.subrange(a@.len() - i, a@.len() as int);
                let y = b@.subrange(0, i as int);
                assert(x[t as int] == a@[start + t]);
                assert(y[t as int] == b@[t as int]);
            }
            return false;
        }
        t += 1;
    }
    assert(a@.subrange(a@.len() - i, a@.len() as int) =~= b@.subrange(0, i as int));
    true
}

/// The overlap of the character sequence `a` followed by `b` under the bound
/// `k`: candidates are tried from the longest down, and the first that matches
/// is returned; 0 when none does.
pub fn overlap_of_chars(a: &[char], b: &[char], k: usize) -> (len: usize)
    ensures
        len == longest_overlap(a@, b@, k as nat),
        len <= k,
        len <= a@.len(),
        len <= b@.len(),
        overlaps_by(a@, b@, len as nat),
        forall|i: nat| len < i <= overlap_limit(a@, b@, k as nat) ==> !overlaps_by(a@, b@, i),
{
    let mut limit: usize = k;
    if a.len() < limit {
        limit = a.len();
    }
    if b.len() < limit {
        limit = b.len();
    }
    proof {
        lemma_overlap_bounded(a@, b@, k as nat);
        lemma_overlap_is_longest(a@, b@, k as nat);
    }
    let mut i: usize = limit;
    while i > 0
        invariant
            i <= limit,
            limit == overlap_limit(a@, b@, k as nat),
            longest_overlap(a@, b@, k as nat) == longest_overlap_within(a@, b@, i as nat),
        decreases i,
    {
        if suffix_matches_prefix(a, b, i) {
            proof {
                lemma_overlap_is_longest(a@, b@, k as nat);
            }
            return i;
        }
        i -= 1;
    }
    0
}

/// The overlap of `seq1` followed by `seq2` under the bound `k`: the length of
/// the longest suffix of `seq1`, of at most `k` characters, that is a prefix of
/// `seq2`. It is 0 when no suffix matches, when `k` is 0, and when either
/// sequence is empty.
pub fn find_overlap(seq1: &str, seq2: &str, k: usize) -> (len: usize)
    ensures
        len == longest_overlap(seq1@, seq2@, k as nat),
        len <= k,
        len <= seq1@.len(),
        len <= seq2@.len(),
        overlaps_by(seq1@, seq2@, len as nat),
        forall|i: nat|
            len < i <= overlap_limit(seq1@, seq2@, k as nat) ==> !overlaps_by(seq1@, seq2@, i),
{
    let a = chars_of(seq1);
    let b = chars_of(seq2);
    overlap_of_chars(a.as_slice(), b.as_slice(), k)
}

} // verus!
