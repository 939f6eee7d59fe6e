//! Cutting a sequence into reads: windows of a fixed width, taken at a fixed
//! stride from the start of the sequence. A read is never empty: at width 0
//! there is none.

use vstd::prelude::*;
use vstd::arithmetic::div_mod::lemma_fundamental_div_mod_converse;
use vstd::arithmetic::mul::lemma_mul_is_distributive_add_other_way;
use crate::text::{chars_of, string_of, string_texts};

verus! {

/// How many windows of `width` characters start at a multiple of `stride`
/// and lie within a sequence of `len` characters; none at width 0.
pub open spec fn read_count(len: nat, width: nat, stride: nat) -> nat {
    if width == 0 || width > len {
        0
    } else {
        ((len - width) / stride as int + 1) as nat
    }
}

/// The `i`-th read: the `width` characters of `genome` from `i * stride` on.
pub open spec fn read_at(genome: Seq<char>, width: nat, stride: nat, i: int) -> Seq<char> {
    genome.subrange(i * stride, i * stride + width)
}

/// The reads of `genome`: every window of `width` characters, `width` at
/// least 1, that starts at a multiple of `stride`, from the start of the
/// sequence on.
pub open spec fn reads_of(genome: Seq<char>, width: nat, stride: nat) -> Seq<Seq<char>> {
    Seq::new(read_count(genome.len(), width, stride), |i: int| read_at(genome, width, stride, i))
}

/// Every read lies within the sequence, and the window after the last one
/// does not.
pub proof fn lemma_reads_within(len: nat, width: nat, stride: nat, i: int)
    requires
        stride > 0,
        0 < width <= len,
    ensures
        0 <= i < read_count(len, width, stride) <==> 0 <= i && i * stride + width <= len,
{
    let span = (len - width) as int;
    let d = stride as int;
    vstd::arithmetic::div_mod::lemma_fundamental_div_mod(span, d);
    vstd::arithmetic::div_mod::lemma_mod_bound(span, d);
    let q = span / d;
    if 0 <= i {
        if i <= q {
            vstd::arithmetic::mul::lemma_mul_inequality(i, q, d);
            vstd::arithmetic::mul::lemma_mul_is_commutative(d, q);
        } else {
            vstd::arithmetic::mul::lemma_mul_inequality(q + 1, i, d);
            vstd::arithmetic::mul::lemma_mul_is_distributive_add_other_way(d, q, 1);
            vstd::arithmetic::mul::lemma_mul_is_commutative(d, q);
        }
    }
}

/// The reads of `genome` of `read_length` characters each, taken at every
/// `stride`-th position: read `i` holds the characters from `i * stride` up to
/// `i * stride + read_length`, for as long as that window lies within
/// `genome`. There is none when `read_length` is 0 or exceeds the length of
/// `genome`; so every read is nonempty. The stride may be 0 only where there
/// is no read to take.
pub fn break_into_reads_with_stride(genome: &str, read_length: usize, stride: usize) -> (reads:
    Vec<String>)
    requires
        stride > 0 || read_length == 0 || read_length > genome@.len(),
    ensures
        string_texts(reads@) == reads_of(genome@, read_length as nat, stride as nat),
        reads@.len() == read_count(genome@.len(), read_length as nat, stride as nat),
        read_length == 0 || read_length > genome@.len() ==> reads@.len() == 0,
        forall|i: int|
            0 <= i < reads@.len() ==> (#[trigger] reads@[i])@ == genome@.subrange(
                i * stride,
                i * stride + read_length,
            ),
        forall|i: int| 0 <= i < reads@.len() ==> (#[trigger] reads@[i])@.len() == read_length,
        forall|i: int| 0 <= i < reads@.len() ==> (#[trigger] reads@[i])@.len() > 0,
{
    let chars = chars_of(genome);
    let mut reads: Vec<String> = Vec::new();
    if read_length == 0 || read_length > chars.len() {
        assert(string_texts(reads@) =~= reads_of(genome@, read_length as nat, stride as nat));
        return reads;
    }
    let last_start: usize = chars.len() - read_length;
    let mut pos: usize = 0;
    assert(0 * stride == 0) by (nonlinear_arith);
    loop
        invariant_except_break
            pos <= last_start,
            pos == reads@.len() * stride,
        invariant
            stride > 0,
            read_length > 0,
            chars@ == genome@,
            last_start + read_length == chars.len(),
            forall|i: int| 0 <= i < reads@.len() ==> (#[trigger] reads@[i])@.len() == read_length,
            forall|i: int|
                0 <= i < reads@.len() ==> (#[trigger] reads@[i])@ == read_at(
                    genome@,
                    read_length as nat,
                    stride as nat,
                    i,
                ),
        ensures
            reads@.len() == read_count(genome@.len(), read_length as nat, stride as nat),
        decreases last_start - pos,
    {
        let ghost taken = reads@.len() as int;
        reads.push(string_of(chars.as_slice(), pos, pos + read_length));
        if last_start - pos < stride {
            proof {
                lemma_fundamental_div_mod_converse(
                    last_start as int,
                    stride as int,
                    taken,
                    last_start - pos,
                );
            }
            break ;
        }
        pos += stride;
        proof {
            lemma_mul_is_distributive_add_other_way(stride as int, taken, 1);
        }
    }
    assert(string_texts(reads@) =~= reads_of(genome@, read_length as nat, stride as nat));
    reads
}

/// The reads of `genome` of `read_length` characters each, one from every
/// position: read `i` is `genome[i..i + read_length]`. There is none when
/// `read_length` is 0 or exceeds the length of `genome`; so every read is
/// nonempty.
pub fn break_into_reads(genome: &str, read_length: usize) -> (reads: Vec<String>)
    ensures
        string_texts(reads@) == reads_of(genome@, read_length as nat, 1),
        read_length == 0 || read_length > genome@.len() ==> reads@.len() == 0,
        0 < read_length <= genome@.len() ==> reads@.len() == genome@.len() - read_length + 1,
        forall|i: int|
            0 <= i < reads@.len() ==> (#[trigger] reads@[i])@ == genome@.subrange(
                i,
                i + read_length,
            ),
        forall|i: int| 0 <= i < reads@.len() ==> (#[trigger] reads@[i])@.len() == read_length,
        forall|i: int| 0 <= i < reads@.len() ==> (#[trigger] reads@[i])@.len() > 0,
{
    break_into_reads_with_stride(genome, read_length, 1)
}

} // verus!
