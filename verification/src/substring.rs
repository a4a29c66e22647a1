//! Substring containment.

use crate::encoding::{
    lemma_encode_concat, lemma_encoded_prefix_ends_at_boundary, lemma_split_at_boundary,
};
use vstd::prelude::*;
use vstd::utf8::*;

verus! {

/// Whether `needle` stands in `haystack` at index `at`, item for item.
pub open spec fn occurs_at<T>(haystack: Seq<T>, needle: Seq<T>, at: int) -> bool {
    &&& 0 <= at
    &&& at + needle.len() <= haystack.len()
    &&& haystack.subrange(at, at + needle.len()) == needle
}

/// Whether `needle` is a contiguous part of `haystack`.
pub open spec fn has_substring<T>(haystack: Seq<T>, needle: Seq<T>) -> bool {
    exists|at: int| occurs_at(haystack, needle, at)
}

/// The empty text is part of every text.
pub proof fn lemma_empty_is_substring<T>(haystack: Seq<T>)
    ensures
        has_substring(haystack, Seq::empty()),
{
    assert(haystack.subrange(0, 0) =~= Seq::<T>::empty());
    assert(occurs_at(haystack, Seq::empty(), 0));
}

/// Any stretch of a text is part of it.
pub proof fn lemma_subrange_is_substring<T>(haystack: Seq<T>, from: int, to: int)
    requires
        0 <= from <= to <= haystack.len(),
    ensures
        has_substring(haystack, haystack.subrange(from, to)),
{
    assert(occurs_at(haystack, haystack.subrange(from, to), from));
}

/// A part of a part of a text is part of the text.
pub proof fn lemma_substring_of_substring<T>(haystack: Seq<T>, part: Seq<T>, needle: Seq<T>)
    requires
        has_substring(haystack, part),
        has_substring(part, needle),
    ensures
        has_substring(haystack, needle),
{
    let outer = choose|at: int| occurs_at(haystack, part, at);
    let inner = choose|at: int| occurs_at(part, needle, at);
    assert(haystack.subrange(outer + inner, outer + inner + needle.len()) =~= part.subrange(
        inner,
        inner + needle.len(),
    ));
    assert(occurs_at(haystack, needle, outer + inner));
}

/// A text holds a pattern exactly when the bytes of the text hold the bytes of the
/// pattern: comparing character for character and comparing byte for byte agree.
pub proof fn lemma_substring_iff_bytes(haystack: Seq<char>, needle: Seq<char>)
    ensures
        has_substring(haystack, needle) <==> has_substring(
            encode_utf8(haystack),
            encode_utf8(needle),
        ),
{
    let bytes = encode_utf8(haystack);
    let pattern = encode_utf8(needle);
    encode_utf8_valid_utf8(haystack);
    encode_utf8_valid_utf8(needle);
    if has_substring(haystack, needle) {
        let at = choose|at: int| occurs_at(haystack, needle, at);
        let front = haystack.take(at);
        let back = haystack.skip(at + needle.len());
        assert(haystack =~= front + needle + back);
        lemma_encode_concat(front + needle, back);
        lemma_encode_concat(front, needle);
        let offset = encode_utf8(front).len() as int;
        assert(bytes.subrange(offset, offset + pattern.len()) =~= pattern);
        assert(occurs_at(bytes, pattern, offset));
    }
    if has_substring(bytes, pattern) {
        if needle.len() == 0 {
            lemma_empty_is_substring(haystack);
            assert(needle =~= Seq::<char>::empty());
        } else {
            let offset = choose|at: int| occurs_at(bytes, pattern, at);
            encode_utf8_first_scalar(needle);
            is_char_boundary_iff_not_is_continuation_byte(bytes, offset);
            let at = lemma_split_at_boundary(haystack, offset);
            let tail = haystack.skip(at);
            encode_utf8_valid_utf8(tail);
            assert(encode_utf8(tail).subrange(0, pattern.len() as int) =~= pattern);
            lemma_encoded_prefix_ends_at_boundary(encode_utf8(tail), needle);
            let length = lemma_split_at_boundary(tail, pattern.len() as int);
            encode_utf8_decode_utf8(tail.take(length));
            encode_utf8_decode_utf8(needle);
            assert(haystack.subrange(at, at + needle.len()) =~= tail.take(length));
            assert(occurs_at(haystack, needle, at));
        }
    }
}

/// Compares `needle` with the part of `haystack` that starts at `at`.
fn matches_at(haystack: &[u8], needle: &[u8], at: usize) -> (found: bool)
    requires
        at + needle@.len() <= haystack@.len() <= usize::MAX,
    ensures
        found == occurs_at(haystack@, needle@, at as int),
{
    let mut k: usize = 0;
    while k < needle.len()
        invariant
            k <= needle@.len(),
            at + needle@.len() <= haystack@.len() <= usize::MAX,
            forall|j: int| 0 <= j < k ==> haystack@[at + j] == needle@[j],
        decreases needle@.len() - k,
    {
        if haystack[at + k] != needle[k] {
            return false;
        }
        k += 1;
    }
    assert(haystack@.subrange(at as int, at + needle@.len()) =~= needle@);
    true
}

/// Looks for `needle` in `haystack`, trying each starting index from the left.
fn contains_bytes(haystack: &[u8], needle: &[u8]) -> (found: bool)
    ensures
        found == has_substring(haystack@, needle@),
{
    if needle.len() > haystack.len() {
        return false;
    }
    let last: usize = haystack.len() - needle.len();
    let mut at: usize = 0;
    loop
        invariant
            at <= last,
            last + needle@.len() == haystack@.len() <= usize::MAX,
            forall|i: int| 0 <= i < at ==> !occurs_at(haystack@, needle@, i),
        decreases last - at,
    {
        if matches_at(haystack, needle, at) {
            return true;
        }
        if at == last {
            return false;
        }
        at += 1;
    }
}

/// Whether the text `haystack` contains the text `needle`. The bytes of the two
/// texts are compared, which finds what comparing their characters finds.
pub fn contains(haystack: &str, needle: &str) -> (found: bool)
    ensures
        found == has_substring(haystack@, needle@),
{
    proof {
        lemma_substring_iff_bytes(haystack@, needle@);
    }
    contains_bytes(haystack.as_bytes(), needle.as_bytes())
}

} // verus!
