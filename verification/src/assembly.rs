//! The greedy assembler: while more than one fragment is held, the ordered
//! pair of fragments with the longest overlap is merged into one.

use vstd::prelude::*;
use crate::overlap::{lemma_overlap_bounded, longest_overlap, overlap_of_chars};
use crate::text::{chars_of_all, string_of, string_texts, texts};

verus! {

/// `i` and `j` are the positions of two different fragments among `n`.
pub open spec fn is_pair(n: nat, i: int, j: int) -> bool {
    0 <= i < n && 0 <= j < n && i != j
}

/// The overlap of fragment `i` followed by fragment `j` under the bound `k`.
pub open spec fn pair_overlap(frags: Seq<Seq<char>>, k: nat, i: int, j: int) -> nat {
    longest_overlap(frags[i], frags[j], k)
}

/// The search visits the ordered pairs row by row: `(p, q)` is visited before
/// `(i, j)`.
pub open spec fn visited_before(p: int, q: int, i: int, j: int) -> bool {
    p < i || (p == i && q < j)
}

/// Some ordered pair of different fragments overlaps.
pub open spec fn some_pair_overlaps(frags: Seq<Seq<char>>, k: nat) -> bool {
    exists|p: int, q: int| is_pair(frags.len(), p, q) && #[trigger] pair_overlap(frags, k, p, q) > 0
}

/// `(i, j)` is the pair that the search settles on: its overlap is positive,
/// no pair has a longer one, and every pair visited before it has a shorter
/// one.
pub open spec fn is_best_pair(frags: Seq<Seq<char>>, k: nat, i: int, j: int) -> bool {
    &&& is_pair(frags.len(), i, j)
    &&& pair_overlap(frags, k, i, j) > 0
    &&& forall|p: int, q: int|
        is_pair(frags.len(), p, q) ==> #[trigger] pair_overlap(frags, k, p, q) <= pair_overlap(
            frags,
            k,
            i,
            j,
        )
    &&& forall|p: int, q: int|
        is_pair(frags.len(), p, q) && visited_before(p, q, i, j) ==> #[trigger] pair_overlap(
            frags,
            k,
            p,
            q,
        ) < pair_overlap(frags, k, i, j)
}

/// What the search knows when it has visited every pair before `(i, j)`:
/// `best` is the longest overlap among them, 0 if none overlaps, and otherwise
/// `(bi, bj)` is the first of them that has it.
spec fn is_best_before(
    frags: Seq<Seq<char>>,
    k: nat,
    i: int,
    j: int,
    bi: int,
    bj: int,
    best: nat,
) -> bool {
    &&& forall|p: int, q: int|
        is_pair(frags.len(), p, q) && visited_before(p, q, i, j) ==> #[trigger] pair_overlap(
            frags,
            k,
            p,
            q,
        ) <= best
    &&& best > 0 ==> {
        &&& is_pair(frags.len(), bi, bj)
        &&& pair_overlap(frags, k, bi, bj) == best
        &&& forall|p: int, q: int|
            is_pair(frags.len(), p, q) && visited_before(p, q, bi, bj) ==> #[trigger] pair_overlap(
                frags,
                k,
                p,
                q,
            ) < best
    }
}

/// A pair of fragments chosen for merging, with the length of its overlap.
#[derive(Clone, Copy, Debug)]
pub struct BestPair {
    /// Position of the fragment whose suffix overlaps.
    pub first: usize,
    /// Position of the fragment whose prefix overlaps.
    pub second: usize,
    /// Length of the overlap; positive.
    pub overlap: usize,
}

/// The search phase: visits every ordered pair of different fragments and
/// returns the one with the longest overlap, the first visited among equals;
/// `None` when no pair overlaps.
pub fn find_best_pair(contigs: &Vec<Vec<char>>, k: usize) -> (found: Option<BestPair>)
    ensures
        match found {
            Some(best) => {
                &&& is_best_pair(texts(contigs@), k as nat, best.first as int, best.second as int)
                &&& best.overlap == pair_overlap(
                    texts(contigs@),
                    k as nat,
                    best.first as int,
                    best.second as int,
                )
            },
            None => !some_pair_overlaps(texts(contigs@), k as nat),
        },
        found is Some <==> some_pair_overlaps(texts(contigs@), k as nat),
{
    let n: usize = contigs.len();
    let ghost frags = texts(contigs@);
    let mut best = BestPair { first: 0, second: 0, overlap: 0 };
    let mut i: usize = 0;
    while i < n
        invariant
            i <= n,
            n == contigs.len(),
            frags == texts(contigs@),
            is_best_before(
                frags,
                k as nat,
                i as int,
                0,
                best.first as int,
                best.second as int,
                best.overlap as nat,
            ),
        decreases n - i,
    {
        let mut j: usize = 0;
        while j < n
            invariant
                i < n,
                j <= n,
                n == contigs.len(),
                frags == texts(contigs@),
                is_best_before(
                    frags,
                    k as nat,
                    i as int,
                    j as int,
                    best.first as int,
                    best.second as int,
                    best.overlap as nat,
                ),
            decreases n - j,
        {
            if i != j {
                let len = overlap_of_chars(contigs[i].as_slice(), contigs[j].as_slice(), k);
                assert(len == pair_overlap(frags, k as nat, i as int, j as int));
                if len > best.overlap {
                    best = BestPair { first: i, second: j, overlap: len };
                }
            }
            j += 1;
        }
        i += 1;
    }
    if best.overlap == 0 {
        None
    } else {
        Some(best)
    }
}

/// A pair that is visited before another differs from it, so at most one pair
/// is the best.
pub proof fn lemma_best_pair_unique(frags: Seq<Seq<char>>, k: nat, i: int, j: int, p: int, q: int)
    requires
        is_best_pair(frags, k, i, j),
        is_best_pair(frags, k, p, q),
    ensures
        i == p,
        j == q,
{
    if visited_before(p, q, i, j) {
        assert(pair_overlap(frags, k, p, q) < pair_overlap(frags, k, i, j));
        assert(pair_overlap(frags, k, i, j) <= pair_overlap(frags, k, p, q));
    } else if visited_before(i, j, p, q) {
        assert(pair_overlap(frags, k, i, j) < pair_overlap(frags, k, p, q));
        assert(pair_overlap(frags, k, p, q) <= pair_overlap(frags, k, i, j));
    }
}

/// From a pair that overlaps, a pair with the longest overlap of all.
proof fn lemma_longest_pair_exists(frags: Seq<Seq<char>>, k: nat, p: int, q: int)
    requires
        is_pair(frags.len(), p, q),
        pair_overlap(frags, k, p, q) > 0,
    ensures
        exists|i: int, j: int|
            {
                &&& is_pair(frags.len(), i, j)
                &&& #[trigger] pair_overlap(frags, k, i, j) > 0
                &&& forall|x: int, y: int|
                    is_pair(frags.len(), x, y) ==> #[trigger] pair_overlap(frags, k, x, y)
                        <= pair_overlap(frags, k, i, j)
            },
    decreases k - pair_overlap(frags, k, p, q),
{
    lemma_overlap_bounded(frags[p], frags[q], k);
    if exists|x: int, y: int|
        is_pair(frags.len(), x, y) && #[trigger] pair_overlap(frags, k, x, y) > pair_overlap(
            frags,
            k,
            p,
            q,
        ) {
        let (x, y) = choose|x: int, y: int|
            is_pair(frags.len(), x, y) && #[trigger] pair_overlap(frags, k, x, y) > pair_overlap(
                frags,
                k,
                p,
                q,
            );
        lemma_overlap_bounded(frags[x], frags[y], k);
        lemma_longest_pair_exists(frags, k, x, y);
    }
}

/// From a pair with the longest overlap of all, the first visited such pair.
proof fn lemma_first_longest_pair_exists(frags: Seq<Seq<char>>, k: nat, p: int, q: int)
    requires
        is_pair(frags.len(), p, q),
        pair_overlap(frags, k, p, q) > 0,
        forall|x: int, y: int|
            is_pair(frags.len(), x, y) ==> #[trigger] pair_overlap(frags, k, x, y) <= pair_overlap(
                frags,
                k,
                p,
                q,
            ),
    ensures
        exists|i: int, j: int| is_best_pair(frags, k, i, j),
    decreases p, q,
{
    if exists|x: int, y: int|
        is_pair(frags.len(), x, y) && visited_before(x, y, p, q) && #[trigger] pair_overlap(
            frags,
            k,
            x,
            y,
        ) >= pair_overlap(frags, k, p, q) {
        let (x, y) = choose|x: int, y: int|
            is_pair(frags.len(), x, y) && visited_before(x, y, p, q) && #[trigger] pair_overlap(
                frags,
                k,
                x,
                y,
            ) >= pair_overlap(frags, k, p, q);
        lemma_first_longest_pair_exists(frags, k, x, y);
    } else {
        assert(is_best_pair(frags, k, p, q));
    }
}

/// Where some pair overlaps, the search has a pair to settle on.
pub proof fn lemma_best_pair_exists(frags: Seq<Seq<char>>, k: nat)
    requires
        some_pair_overlaps(frags, k),
    ensures
        exists|i: int, j: int| is_best_pair(frags, k, i, j),
{
    let (p, q) = choose|p: int, q: int|
        is_pair(frags.len(), p, q) && #[trigger] pair_overlap(frags, k, p, q) > 0;
    lemma_longest_pair_exists(frags, k, p, q);
    let (i, j) = choose|i: int, j: int|
        {
            &&& is_pair(frags.len(), i, j)
            &&& #[trigger] pair_overlap(frags, k, i, j) > 0
            &&& forall|x: int, y: int|
                is_pair(frags.len(), x, y) ==> #[trigger] pair_overlap(frags, k, x, y)
                    <= pair_overlap(frags, k, i, j)
        };
    lemma_first_longest_pair_exists(frags, k, i, j);
}

/// The pair that the search settles on, where some pair overlaps.
pub open spec fn best_pair(frags: Seq<Seq<char>>, k: nat) -> (int, int) {
    choose|i: int, j: int| is_best_pair(frags, k, i, j)
}

/// `a` followed by what of `b` comes after its first `len` characters.
pub open spec fn merged(a: Seq<char>, b: Seq<char>, len: nat) -> Seq<char> {
    a + b.skip(len as int)
}

/// `s` without its element at `i`, whose place the last element takes.
pub open spec fn swap_removed(s: Seq<Seq<char>>, i: int) -> Seq<Seq<char>> {
    s.update(i, s.last()).drop_last()
}

/// Where fragment `j` stands once fragment `i` has been swap-removed from `n`
/// fragments: the last fragment has moved to `i`, the others have stayed.
pub open spec fn position_after_removal(n: nat, i: int, j: int) -> int {
    if j == n - 1 {
        i
    } else {
        j
    }
}

/// The collection after the merge phase: fragments `i` and `j` are
/// swap-removed, in this order, and their merge is added at the end.
pub open spec fn after_merge(frags: Seq<Seq<char>>, i: int, j: int, len: nat) -> Seq<Seq<char>> {
    swap_removed(swap_removed(frags, i), position_after_removal(frags.len(), i, j)).push(
        merged(frags[i], frags[j], len),
    )
}

/// A merge takes two fragments out and puts one in.
pub proof fn lemma_after_merge_len(frags: Seq<Seq<char>>, i: int, j: int, len: nat)
    requires
        is_pair(frags.len(), i, j),
    ensures
        after_merge(frags, i, j, len).len() == frags.len() - 1,
{
}

/// A swap-removal takes out the element at `i` and no other.
pub proof fn lemma_swap_removed_contents(s: Seq<Seq<char>>, i: int)
    requires
        0 <= i < s.len(),
    ensures
        swap_removed(s, i).to_multiset() == s.to_multiset().remove(s[i]),
{
    broadcast use vstd::seq_lib::group_to_multiset_ensures;

    let t = swap_removed(s, i);
    let u = s.remove(i);
    let last = s.len() - 1;
    if i == last {
        assert(t =~= u);
    } else {
        assert(t.remove(i) =~= u.remove(last - 1));
        assert(t[i] == s.last());
        assert(u[last - 1] == s.last());
        vstd::seq_lib::to_multiset_remove(t, i);
        vstd::seq_lib::to_multiset_remove(u, last - 1);
        assert(t.to_multiset().remove(s.last()) == u.to_multiset().remove(s.last()));
        assert(t.contains(s.last()));
        assert(u.contains(s.last()));
        assert(t.to_multiset() =~= t.to_multiset().remove(s.last()).insert(s.last()));
        assert(u.to_multiset() =~= u.to_multiset().remove(s.last()).insert(s.last()));
    }
}

/// A merge changes the collection, taken as a multiset, in this way alone:
/// fragments `i` and `j` leave it and their merge enters it.
pub proof fn lemma_after_merge_contents(frags: Seq<Seq<char>>, i: int, j: int, len: nat)
    requires
        is_pair(frags.len(), i, j),
    ensures
        after_merge(frags, i, j, len).to_multiset() == frags.to_multiset().remove(
            frags[i],
        ).remove(frags[j]).insert(merged(frags[i], frags[j], len)),
{
    broadcast use vstd::seq_lib::group_to_multiset_ensures;

    let rest = swap_removed(frags, i);
    let at = position_after_removal(frags.len(), i, j);
    assert(rest[at] == frags[j]);
    lemma_swap_removed_contents(frags, i);
    lemma_swap_removed_contents(rest, at);
}

/// The merge phase: takes the fragments at `first` and `second` out of the
/// collection and appends their merge, the first fragment in full followed by
/// the second without its first `overlap` characters.
pub fn merge_pair(contigs: &mut Vec<Vec<char>>, first: usize, second: usize, overlap: usize)
    requires
        is_pair(old(contigs)@.len(), first as int, second as int),
        overlap <= old(contigs)@[second as int]@.len(),
    ensures
        texts(final(contigs)@) == after_merge(
            texts(old(contigs)@),
            first as int,
            second as int,
            overlap as nat,
        ),
{
    let n: usize = contigs.len();
    let mut head = contigs.swap_remove(first);
    let at: usize = if second == n - 1 {
        first
    } else {
        second
    };
    let tail = contigs.swap_remove(at);
    let ghost a = head@;
    let mut t: usize = overlap;
    while t < tail.len()
        invariant
            overlap <= t <= tail@.len(),
            head@ == a + tail@.subrange(overlap as int, t as int),
        decreases tail.len() - t,
    {
        head.push(tail[t]);
        t += 1;
        assert(head@ =~= a + tail@.subrange(overlap as int, t as int));
    }
    assert(head@ =~= merged(a, tail@, overlap as nat));
    contigs.push(head);
    assert(texts(contigs@) =~= after_merge(
        texts(old(contigs)@),
        first as int,
        second as int,
        overlap as nat,
    ));
}

/// What an assembly run yields, as mathematical values.
pub struct AssemblyView {
    /// The assembled sequence.
    pub sequence: Seq<char>,
    /// How many fragments were left out of it.
    pub unmerged: nat,
}

/// What an assembly run yields.
#[derive(Debug)]
pub struct Assembly {
    /// The assembled sequence; empty when there were no fragments.
    pub sequence: String,
    /// How many fragments were still held beside `sequence` when no pair
    /// overlapped any more. They are not part of `sequence`.
    pub unmerged: usize,
}

impl View for Assembly {
    type V = AssemblyView;

    open spec fn view(&self) -> AssemblyView {
        AssemblyView { sequence: self.sequence@, unmerged: self.unmerged as nat }
    }
}

impl Assembly {
    /// Whether every fragment went into the sequence.
    pub fn is_complete(&self) -> (complete: bool)
        ensures
            complete == (self@.unmerged == 0),
    {
        self.unmerged == 0
    }
}

/// The outcome of greedy assembly on `frags` under the overlap bound `k`.
///
/// With no fragment the sequence is empty. With one fragment, or when no pair
/// overlaps, the fragment held last is the sequence and the others are left
/// out. Otherwise the best pair is merged and assembly goes on with the
/// smaller collection.
pub open spec fn assembled(frags: Seq<Seq<char>>, k: nat) -> AssemblyView
    decreases frags.len(),
    via assembled_decreases
{
    if frags.len() == 0 {
        AssemblyView { sequence: Seq::empty(), unmerged: 0 }
    } else if frags.len() == 1 || !some_pair_overlaps(frags, k) {
        AssemblyView { sequence: frags.last(), unmerged: (frags.len() - 1) as nat }
    } else {
        let (i, j) = best_pair(frags, k);
        assembled(after_merge(frags, i, j, pair_overlap(frags, k, i, j)), k)
    }
}

#[via_fn]
proof fn assembled_decreases(frags: Seq<Seq<char>>, k: nat) {
    if frags.len() > 1 && some_pair_overlaps(frags, k) {
        lemma_best_pair_exists(frags, k);
        let (i, j) = best_pair(frags, k);
        lemma_after_merge_len(frags, i, j, pair_overlap(frags, k, i, j));
    }
}

/// Greedy assembly of `fragments` under the overlap bound `k`.
///
/// While more than one fragment is held, the ordered pair with the longest
/// overlap (the first found among equals) is merged. The run ends with one
/// fragment, or when no pair overlaps: then the fragment held last is
/// returned and `unmerged` counts the others.
pub fn assemble(fragments: Vec<String>, k: usize) -> (result: Assembly)
    ensures
        result@ == assembled(string_texts(fragments@), k as nat),
{
    let mut contigs = chars_of_all(&fragments);
    let ghost goal = assembled(string_texts(fragments@), k as nat);
    while contigs.len() > 1
        invariant
            assembled(texts(contigs@), k as nat) == goal,
        ensures
            assembled(texts(contigs@), k as nat) == goal,
            contigs.len() <= 1 || !some_pair_overlaps(texts(contigs@), k as nat),
        decreases contigs.len(),
    {
        match find_best_pair(&contigs, k) {
            None => {
                break ;
            },
            Some(best) => {
                proof {
                    let frags = texts(contigs@);
                    let (i, j) = best_pair(frags, k as nat);
                    lemma_best_pair_unique(
                        frags,
                        k as nat,
                        i,
                        j,
                        best.first as int,
                        best.second as int,
                    );
                    lemma_overlap_bounded(
                        frags[best.first as int],
                        frags[best.second as int],
                        k as nat,
                    );
                }
                let ghost before = texts(contigs@);
                merge_pair(&mut contigs, best.first, best.second, best.overlap);
                proof {
                    lemma_after_merge_len(
                        before,
                        best.first as int,
                        best.second as int,
                        best.overlap as nat,
                    );
                    assert(texts(contigs@).len() == contigs@.len());
                }
            },
        }
    }
    let held: usize = contigs.len();
    let ghost frags = texts(contigs@);
    match contigs.pop() {
        None => Assembly { sequence: String::new(), unmerged: 0 },
        Some(last) => {
            assert(last@ == frags.last());
            assert(last@.subrange(0, last@.len() as int) =~= last@);
            Assembly { sequence: string_of(last.as_slice(), 0, last.len()), unmerged: held - 1 }
        },
    }
}

/// The sequence that greedy assembly of `contigs` under the overlap bound `k`
/// ends with. Fragments that could not be merged into it are dropped; see
/// [`assemble`] for their number.
pub fn assemble_genome(contigs: Vec<String>, k: usize) -> (genome: String)
    ensures
        genome@ == assembled(string_texts(contigs@), k as nat).sequence,
{
    assemble(contigs, k).sequence
}

/// Assembling no fragments yields the empty sequence, with nothing left out.
pub proof fn lemma_assemble_empty(k: nat)
    ensures
        assembled(Seq::empty(), k) == (AssemblyView { sequence: Seq::empty(), unmerged: 0 }),
{
}

/// Assembling a single fragment yields that fragment unchanged, with nothing
/// left out.
pub proof fn lemma_assemble_single(fragment: Seq<char>, k: nat)
    ensures
        assembled(seq![fragment], k) == (AssemblyView { sequence: fragment, unmerged: 0 }),
{
}

/// Assembly is idempotent: assembling the sequence that an assembly ended
/// with, as a collection of one, yields that sequence again.
pub proof fn lemma_assemble_idempotent(frags: Seq<Seq<char>>, k: nat)
    ensures
        assembled(seq![assembled(frags, k).sequence], k) == (AssemblyView {
            sequence: assembled(frags, k).sequence,
            unmerged: 0,
        }),
{
    lemma_assemble_single(assembled(frags, k).sequence, k);
}

/// Where no pair of fragments overlaps, nothing is merged: the fragment held
/// last is the outcome and all others are left out.
pub proof fn lemma_assemble_without_overlap(frags: Seq<Seq<char>>, k: nat)
    requires
        frags.len() > 0,
        !some_pair_overlaps(frags, k),
    ensures
        assembled(frags, k) == (AssemblyView {
            sequence: frags.last(),
            unmerged: (frags.len() - 1) as nat,
        }),
{
}

/// Under the bound 0 no overlap is ever found, so nothing is merged.
pub proof fn lemma_assemble_zero_bound(frags: Seq<Seq<char>>)
    requires
        frags.len() > 0,
    ensures
        assembled(frags, 0) == (AssemblyView {
            sequence: frags.last(),
            unmerged: (frags.len() - 1) as nat,
        }),
{
    assert forall|p: int, q: int| is_pair(frags.len(), p, q) implies #[trigger] pair_overlap(
        frags,
        0,
        p,
        q,
    ) == 0 by {
        lemma_overlap_bounded(frags[p], frags[q], 0);
    }
}

/// Where `(i, j)` is the best pair, assembly merges it and goes on with the
/// collection that the merge leaves.
pub proof fn lemma_assemble_step(frags: Seq<Seq<char>>, k: nat, i: int, j: int)
    requires
        is_best_pair(frags, k, i, j),
    ensures
        assembled(frags, k) == assembled(
            after_merge(frags, i, j, pair_overlap(frags, k, i, j)),
            k,
        ),
{
    let (p, q) = best_pair(frags, k);
    lemma_best_pair_unique(frags, k, i, j, p, q);
}

/// At least one fragment goes into the outcome: fewer are left out than there
/// were.
pub proof fn lemma_unmerged_bounded(frags: Seq<Seq<char>>, k: nat)
    requires
        frags.len() > 0,
    ensures
        assembled(frags, k).unmerged < frags.len(),
    decreases frags.len(),
{
    if frags.len() > 1 && some_pair_overlaps(frags, k) {
        lemma_best_pair_exists(frags, k);
        let (i, j) = best_pair(frags, k);
        lemma_after_merge_len(frags, i, j, pair_overlap(frags, k, i, j));
        lemma_unmerged_bounded(after_merge(frags, i, j, pair_overlap(frags, k, i, j)), k);
    }
}

/// Assembly is deterministic: two runs on collections that hold the same
/// sequences in the same order, under the same bound, end with the same
/// sequence and the same count.
pub proof fn lemma_assemble_deterministic(
    fragments: Vec<String>,
    again: Vec<String>,
    k: usize,
    first: Assembly,
    second: Assembly,
)
    requires
        string_texts(fragments@) == string_texts(again@),
        first@ == assembled(string_texts(fragments@), k as nat),
        second@ == assembled(string_texts(again@), k as nat),
    ensures
        first@ == second@,
        first.sequence@ == second.sequence@,
        first.unmerged == second.unmerged,
{
}

} // verus!
