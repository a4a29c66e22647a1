//! Splitting a text into lines.

use crate::encoding::{
    lemma_ascii_byte_is_char, lemma_ascii_char_is_byte, lemma_char_index_is_boundary,
    lemma_same_encoding_same_text,
};
use crate::substring::{has_substring, lemma_subrange_is_substring, lemma_substring_of_substring};
use vstd::prelude::*;
use vstd::utf8::*;

verus! {

/// The byte that encodes a line feed.
pub const LINE_FEED: u8 = 0x0A;

/// The byte that encodes a carriage return.
pub const CARRIAGE_RETURN: u8 = 0x0D;

/// Number of characters of `text` before its first line feed; its length if it has none.
pub open spec fn line_end(text: Seq<char>) -> nat
    decreases text.len(),
{
    if text.len() == 0 || text[0] == '\n' {
        0
    } else {
        1 + line_end(text.drop_first())
    }
}

/// `line` without the carriage return that ends it, if one does.
pub open spec fn without_carriage_return(line: Seq<char>) -> Seq<char> {
    if line.len() > 0 && line.last() == '\r' {
        line.drop_last()
    } else {
        line
    }
}

/// The first line of `text`: what stands before its first line feed, but for a
/// carriage return directly before that line feed; all of `text` if it has no line feed.
pub open spec fn first_line(text: Seq<char>) -> Seq<char> {
    let end = line_end(text) as int;
    if end < text.len() {
        without_carriage_return(text.take(end))
    } else {
        text
    }
}

/// What follows the first line feed of `text`; nothing if it has none.
pub open spec fn after_first_line(text: Seq<char>) -> Seq<char> {
    let end = line_end(text) as int;
    if end < text.len() {
        text.skip(end + 1)
    } else {
        Seq::empty()
    }
}

/// The lines of `text`. A line ends at a line feed, or at the end of the text if
/// characters are left there. Neither the line feed nor a carriage return directly
/// before it belongs to the line.
pub open spec fn lines_of(text: Seq<char>) -> Seq<Seq<char>>
    decreases text.len(),
{
    if text.len() == 0 {
        Seq::empty()
    } else {
        seq![first_line(text)] + lines_of(after_first_line(text))
    }
}

/// Whether `text` holds no line feed.
pub open spec fn is_single_line(text: Seq<char>) -> bool {
    forall|i: int| 0 <= i < text.len() ==> text[i] != '\n'
}

/// `line_end` finds the first line feed: no character before it is one, and it is
/// the end of the text or the index of a line feed.
pub proof fn lemma_line_end_is_first_line_feed(text: Seq<char>)
    ensures
        line_end(text) <= text.len(),
        is_single_line(text.take(line_end(text) as int)),
        line_end(text) < text.len() ==> text[line_end(text) as int] == '\n',
    decreases text.len(),
{
    if text.len() > 0 && text[0] != '\n' {
        let rest = text.drop_first();
        lemma_line_end_is_first_line_feed(rest);
        let head = text.take(line_end(text) as int);
        assert forall|i: int| 0 <= i < head.len() implies head[i] != '\n' by {
            if i > 0 {
                assert(head[i] == rest.take(line_end(rest) as int)[i - 1]);
            }
        }
    }
}

/// The first line of `head + "\n" + tail` ends where `head` does, if `head` has no line feed.
pub proof fn lemma_line_end_at_line_feed(head: Seq<char>, tail: Seq<char>)
    requires
        is_single_line(head),
    ensures
        line_end(head + seq!['\n'] + tail) == head.len(),
    decreases head.len(),
{
    let text = head + seq!['\n'] + tail;
    if head.len() > 0 {
        lemma_line_end_at_line_feed(head.drop_first(), tail);
        assert(text.drop_first() =~= head.drop_first() + seq!['\n'] + tail);
    }
}

/// The lines of `head + "\n" + tail`, where `head` has no line feed, are `head`
/// without its closing carriage return and then the lines of `tail`.
pub proof fn lemma_lines_of_first_line(head: Seq<char>, tail: Seq<char>)
    requires
        is_single_line(head),
    ensures
        lines_of(head + seq!['\n'] + tail) == seq![without_carriage_return(head)] + lines_of(tail),
{
    let text = head + seq!['\n'] + tail;
    lemma_line_end_at_line_feed(head, tail);
    assert(text.take(head.len() as int) =~= head);
    assert(text.skip(head.len() as int + 1) =~= tail);
}

/// A text without line feed is one line, or none if it is empty.
pub proof fn lemma_lines_of_single_line(text: Seq<char>)
    requires
        is_single_line(text),
    ensures
        lines_of(text) == if text.len() == 0 {
            Seq::<Seq<char>>::empty()
        } else {
            seq![text]
        },
{
    lemma_line_end_is_first_line_feed(text);
    assert(lines_of(Seq::<char>::empty()) =~= Seq::<Seq<char>>::empty());
}

/// No line holds a line feed.
pub proof fn lemma_lines_are_single_lines(text: Seq<char>, i: int)
    requires
        0 <= i < lines_of(text).len(),
    ensures
        is_single_line(lines_of(text)[i]),
    decreases text.len(),
{
    lemma_line_end_is_first_line_feed(text);
    let end = line_end(text) as int;
    if i > 0 {
        lemma_lines_are_single_lines(after_first_line(text), i - 1);
    } else if end >= text.len() {
        assert(text.take(end) =~= text);
    }
}

/// Every line is a contiguous part of the text.
pub proof fn lemma_lines_are_parts_of_text(text: Seq<char>, i: int)
    requires
        0 <= i < lines_of(text).len(),
    ensures
        has_substring(text, lines_of(text)[i]),
    decreases text.len(),
{
    lemma_line_end_is_first_line_feed(text);
    let end = line_end(text) as int;
    if i > 0 {
        let tail = after_first_line(text);
        lemma_lines_are_parts_of_text(tail, i - 1);
        lemma_subrange_is_substring(text, end + 1, text.len() as int);
        lemma_substring_of_substring(text, tail, lines_of(tail)[i - 1]);
    } else {
        let first = first_line(text);
        lemma_subrange_is_substring(text, 0, first.len() as int);
        assert(text.subrange(0, first.len() as int) =~= first);
    }
}

/// A line feed at the very end is optional: a text that ends with a character
/// other than a line feed or a carriage return has the same lines with a line feed put
/// after it.
pub proof fn lemma_final_line_feed_is_optional(text: Seq<char>)
    requires
        text.len() > 0,
        text.last() != '\n',
        text.last() != '\r',
    ensures
        lines_of(text + seq!['\n']) == lines_of(text),
    decreases text.len(),
{
    let closed = text + seq!['\n'];
    lemma_line_end_is_first_line_feed(text);
    let end = line_end(text) as int;
    if end < text.len() {
        let head = text.take(end);
        let tail = text.skip(end + 1);
        assert(closed =~= head + seq!['\n'] + (tail + seq!['\n']));
        lemma_lines_of_first_line(head, tail);
        lemma_lines_of_first_line(head, tail + seq!['\n']);
        lemma_final_line_feed_is_optional(tail);
    } else {
        assert(text.take(end) =~= text);
        lemma_lines_of_first_line(text, Seq::empty());
        lemma_lines_of_single_line(text);
    }
}

/// So is a carriage return and a line feed at the very end: a text that ends with a
/// character other than a line feed has the same lines with the two put after it.
pub proof fn lemma_final_line_ending_is_optional(text: Seq<char>)
    requires
        text.len() > 0,
        text.last() != '\n',
    ensures
        lines_of(text + seq!['\r', '\n']) == lines_of(text),
    decreases text.len(),
{
    let closed = text + seq!['\r', '\n'];
    lemma_line_end_is_first_line_feed(text);
    let end = line_end(text) as int;
    if end < text.len() {
        let head = text.take(end);
        let tail = text.skip(end + 1);
        assert(closed =~= head + seq!['\n'] + (tail + seq!['\r', '\n']));
        lemma_lines_of_first_line(head, tail);
        lemma_lines_of_first_line(head, tail + seq!['\r', '\n']);
        lemma_final_line_ending_is_optional(tail);
    } else {
        assert(text.take(end) =~= text);
        let held = text.push('\r');
        assert(closed =~= held + seq!['\n'] + Seq::<char>::empty());
        lemma_lines_of_first_line(held, Seq::empty());
        assert(held.drop_last() =~= text);
        lemma_lines_of_single_line(text);
    }
}

/// Where the first line ends in the encoding of a text whose first line-feed byte
/// stands at `at`, or which has `at` bytes and no line-feed byte.
spec fn first_line_stop(bytes: Seq<u8>, at: int) -> int {
    if 0 < at < bytes.len() && bytes[at - 1] == CARRIAGE_RETURN {
        at - 1
    } else {
        at
    }
}

/// Where the text after the first line begins in such an encoding.
spec fn after_first_line_start(bytes: Seq<u8>, at: int) -> int {
    if at < bytes.len() {
        at + 1
    } else {
        at
    }
}

/// The first line of a text and what follows it, found in the text's encoding: the
/// first line is encoded by the bytes before the first line-feed byte, but for a
/// carriage-return byte directly before it, and what follows is encoded by the bytes
/// after the line-feed byte. Both cuts fall on character boundaries.
proof fn lemma_first_line_in_bytes(text: Seq<char>, at: int)
    requires
        0 <= at <= encode_utf8(text).len(),
        forall|j: int| 0 <= j < at ==> encode_utf8(text)[j] != LINE_FEED,
        at < encode_utf8(text).len() ==> encode_utf8(text)[at] == LINE_FEED,
    ensures
        is_char_boundary(encode_utf8(text), first_line_stop(encode_utf8(text), at)),
        is_char_boundary(encode_utf8(text), after_first_line_start(encode_utf8(text), at)),
        encode_utf8(first_line(text)) == encode_utf8(text).subrange(
            0,
            first_line_stop(encode_utf8(text), at),
        ),
        encode_utf8(after_first_line(text)) == encode_utf8(text).subrange(
            after_first_line_start(encode_utf8(text), at),
            encode_utf8(text).len() as int,
        ),
{
    let bytes = encode_utf8(text);
    encode_utf8_valid_utf8(text);
    if at == bytes.len() {
        assert forall|i: int| 0 <= i < text.len() implies text[i] != '\n' by {
            if text[i] == '\n' {
                lemma_ascii_char_is_byte(text, i);
            }
        }
        lemma_line_end_is_first_line_feed(text);
        is_char_boundary_start_end_of_seq(bytes);
    } else {
        let index = lemma_ascii_byte_is_char(text, at);
        char_u32_cast(text[index], LINE_FEED as u32);
        char_u32_cast('\n', LINE_FEED as u32);
        let front = text.take(index);
        let back = text.skip(index + 1);
        assert forall|i: int| 0 <= i < front.len() implies front[i] != '\n' by {
            if front[i] == '\n' {
                lemma_ascii_char_is_byte(front, i);
            }
        }
        assert(text =~= front + seq!['\n'] + back);
        lemma_line_end_at_line_feed(front, back);
        lemma_char_index_is_boundary(text, index + 1);
        assert(encode_utf8(text.take(index + 1)).len() == at + 1) by {
            assert(encode_utf8(back).len() == bytes.len() - (at + 1));
        }
        if at > 0 && bytes[at - 1] == CARRIAGE_RETURN {
            let last = lemma_ascii_byte_is_char(front, at - 1);
            char_u32_cast(front[last], CARRIAGE_RETURN as u32);
            char_u32_cast('\r', CARRIAGE_RETURN as u32);
            assert(encode_utf8(front.skip(last + 1)) =~= encode_utf8(Seq::<char>::empty()));
            lemma_same_encoding_same_text(front.skip(last + 1), Seq::<char>::empty());
            is_char_boundary_iff_not_is_continuation_byte(bytes, at - 1);
        } else {
            if front.len() > 0 && front.last() == '\r' {
                let last = front.len() - 1;
                let found = lemma_ascii_char_is_byte(front, last);
                assert(encode_utf8(front).subrange(found + 1, encode_utf8(front).len() as int).len()
                    == 0);
            }
        }
    }
}

/// Cuts `text` after its first line: returns that line, without its line ending, and
/// what follows the line ending.
pub fn split_first_line(text: &str) -> (parts: (&str, &str))
    ensures
        parts.0@ == first_line(text@),
        parts.1@ == after_first_line(text@),
{
    let bytes = text.as_bytes();
    let mut at: usize = 0;
    while at < bytes.len() && bytes[at] != LINE_FEED
        invariant
            at <= bytes@.len(),
            forall|j: int| 0 <= j < at ==> bytes@[j] != LINE_FEED,
        decreases bytes@.len() - at,
    {
        at += 1;
    }
    let stop: usize = if 0 < at && at < bytes.len() && bytes[at - 1] == CARRIAGE_RETURN {
        at - 1
    } else {
        at
    };
    let start: usize = if at < bytes.len() {
        at + 1
    } else {
        at
    };
    proof {
        lemma_first_line_in_bytes(text@, at as int);
    }
    let (line, _) = text.split_at(stop);
    let (_, after) = text.split_at(start);
    proof {
        lemma_same_encoding_same_text(line@, first_line(text@));
        lemma_same_encoding_same_text(after@, after_first_line(text@));
    }
    (line, after)
}

/// Splits `text` into its lines.
pub fn lines(text: &str) -> (all: Vec<String>)
    ensures
        all.deep_view() == lines_of(text@),
{
    let mut all: Vec<String> = Vec::new();
    let mut rest = text;
    while !rest.is_empty()
        invariant
            lines_of(text@) == all.deep_view() + lines_of(rest@),
        decreases rest@.len(),
    {
        let (line, after) = split_first_line(rest);
        proof {
            lemma_line_end_is_first_line_feed(rest@);
        }
        all.push(line.to_owned());
        rest = after;
    }
    all
}

} // verus!
