//! Strings as character vectors.
//!
//! Indexing a `str` by character position costs a scan from its start, so the
//! algorithms of this crate work on `Vec<char>` and convert at their edges.

use vstd::prelude::*;

verus! {

/// The characters of `s`, in order.
pub fn chars_of(s: &str) -> (chars: Vec<char>)
    ensures
        chars@ == s@,
{
    let mut chars: Vec<char> = Vec::new();
    for c in it: s.chars()
        invariant
            it.seq() == s@,
            chars@ == it.seq().take(it.index()),
    {
        chars.push(c);
    }
    chars
}

/// `String::push` of std. Not proved: that the string afterwards is the string
/// before with `ch` appended at its end.
pub assume_specification[ String::push ](s: &mut String, ch: char)
    ensures
        final(s)@ == old(s)@.push(ch),
;

/// The string made of the characters `chars[from..to]`.
pub fn string_of(chars: &[char], from: usize, to: usize) -> (s: String)
    requires
        from <= to <= chars@.len(),
    ensures
        s@ == chars@.subrange(from as int, to as int),
{
    let mut s = String::new();
    let mut i: usize = from;
    while i < to
        invariant
            from <= i <= to <= chars@.len(),
            s@ == chars@.subrange(from as int, i as int),
        decreases to - i,
    {
        s.push(chars[i]);
        i += 1;
        assert(s@ =~= chars@.subrange(from as int, i as int));
    }
    s
}

/// The sequences that a collection of strings holds, in order.
pub open spec fn string_texts(strings: Seq<String>) -> Seq<Seq<char>> {
    Seq::new(strings.len(), |i: int| strings[i]@)
}

/// The sequences that a collection of character vectors holds, in order.
pub open spec fn texts(contigs: Seq<Vec<char>>) -> Seq<Seq<char>> {
    Seq::new(contigs.len(), |i: int| contigs[i]@)
}

/// Each string of `strings` as a character vector, in the same order.
pub fn chars_of_all(strings: &Vec<String>) -> (contigs: Vec<Vec<char>>)
    ensures
        texts(contigs@) == string_texts(strings@),
{
    let mut contigs: Vec<Vec<char>> = Vec::new();
    let mut i: usize = 0;
    while i < strings.len()
        invariant
            i <= strings.len(),
            contigs@.len() == i,
            forall|t: int| 0 <= t < i ==> contigs@[t]@ == strings@[t]@,
        decreases strings.len() - i,
    {
        contigs.push(chars_of(strings[i].as_str()));
        i += 1;
    }
    assert(texts(contigs@) =~= string_texts(strings@));
    contigs
}

} // verus!
