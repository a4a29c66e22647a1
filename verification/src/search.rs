//! The search itself: the lines of a text that a query selects.

use crate::case::lowercase;
use crate::filter::{
    items_at, lemma_filter_keeps_all, lemma_filter_keeps_none, lemma_filter_picks_accepted,
    lemma_filter_then_change, picks_accepted,
};
use crate::lines::{
    lemma_line_end_is_first_line_feed, lemma_lines_are_parts_of_text, lines_of, split_first_line,
};
use crate::query::{Query, QueryView};
use crate::substring::{has_substring, lemma_empty_is_substring, lemma_substring_of_substring};
use vstd::prelude::*;

verus! {

/// The test that `query` puts to each line.
pub open spec fn selects(query: QueryView) -> spec_fn(Seq<char>) -> bool {
    |line: Seq<char>| query.matches(line)
}

/// The lines of `text` that `query` selects, in the order in which they stand in `text`.
pub open spec fn matching_lines(query: QueryView, text: Seq<char>) -> Seq<Seq<char>> {
    lines_of(text).filter(selects(query))
}

/// Returns the lines of `contents` that `query` selects.
pub fn search(query: Query, contents: &str) -> (found: Vec<String>)
    ensures
        found.deep_view() == matching_lines(query@, contents@),
{
    let mut found: Vec<String> = Vec::new();
    let mut rest = contents;
    let ghost mut read: Seq<Seq<char>> = Seq::empty();
    proof {
        reveal(Seq::filter);
    }
    // `read` holds the lines cut off so far; `found` holds those of them that are selected.
    while !rest.is_empty()
        invariant
            lines_of(contents@) == read + lines_of(rest@),
            found.deep_view() == read.filter(selects(query@)),
        decreases rest@.len(),
    {
        let (line, after) = split_first_line(rest);
        proof {
            lemma_line_end_is_first_line_feed(rest@);
            read.lemma_filter_push(line@, selects(query@));
            read = read.push(line@);
        }
        if query.matches(line) {
            found.push(line.to_owned());
        }
        rest = after;
    }
    found
}

/// The search returns exactly the selected lines of the text, each as often as it
/// stands there and in the order in which they stand there: the result is read off the
/// lines of the text at ascending indices, which are those of the selected lines.
pub proof fn lemma_search_returns_selected_lines_in_order(
    query: QueryView,
    text: Seq<char>,
) -> (picked: Seq<int>)
    ensures
        picks_accepted(lines_of(text), selects(query), picked),
        matching_lines(query, text) == items_at(lines_of(text), picked),
{
    lemma_filter_picks_accepted(lines_of(text), selects(query))
}

/// Each of `lines` in lowercase.
pub open spec fn lowercased(lines: Seq<Seq<char>>) -> Seq<Seq<char>> {
    lines.map_values(|line: Seq<char>| lowercase(line))
}

/// Searching whatever the case is searching exactly in lowercase: a line is selected
/// when the exact query for the lowercased pattern selects the lowercased line, that
/// is when the one contains the other, and the lowercase forms of the lines returned
/// are what the exact search for the lowercased pattern returns of the lowercased lines.
pub proof fn lemma_case_insensitive_search_is_exact_search_in_lowercase(
    raw: Seq<char>,
    text: Seq<char>,
)
    ensures
        forall|line: Seq<char>| #[trigger]
            QueryView::CaseInsensitive(lowercase(raw)).matches(line) == QueryView::CaseSensitive(
                lowercase(raw),
            ).matches(lowercase(line)),
        forall|line: Seq<char>| #[trigger]
            QueryView::CaseInsensitive(lowercase(raw)).matches(line) == has_substring(
                lowercase(line),
                lowercase(raw),
            ),
        lowercased(matching_lines(QueryView::CaseInsensitive(lowercase(raw)), text)) == lowercased(
            lines_of(text),
        ).filter(selects(QueryView::CaseSensitive(lowercase(raw)))),
{
    lemma_filter_then_change(
        lines_of(text),
        |line: Seq<char>| lowercase(line),
        selects(QueryView::CaseInsensitive(lowercase(raw))),
        selects(QueryView::CaseSensitive(lowercase(raw))),
    );
}

/// A query with an empty pattern selects every line, so the search returns all the
/// lines of the text.
pub proof fn lemma_empty_pattern_returns_every_line(query: QueryView, text: Seq<char>)
    requires
        query.pattern().len() == 0,
    ensures
        forall|line: Seq<char>| #[trigger] query.matches(line),
        matching_lines(query, text) == lines_of(text),
{
    assert(query.pattern() =~= Seq::<char>::empty());
    assert forall|line: Seq<char>| #[trigger] query.matches(line) by {
        lemma_empty_is_substring(line);
        lemma_empty_is_substring(lowercase(line));
    }
    lemma_filter_keeps_all(lines_of(text), selects(query));
}

/// Where the query selects no line of the text, the search returns nothing.
pub proof fn lemma_no_selected_line_returns_nothing(query: QueryView, text: Seq<char>)
    requires
        forall|i: int| 0 <= i < lines_of(text).len() ==> !query.matches(#[trigger] lines_of(text)[i]),
    ensures
        matching_lines(query, text) == Seq::<Seq<char>>::empty(),
{
    lemma_filter_keeps_none(lines_of(text), selects(query));
}

/// Where the pattern occurs nowhere in the text, the exact search returns nothing.
pub proof fn lemma_absent_pattern_returns_nothing(pattern: Seq<char>, text: Seq<char>)
    requires
        !has_substring(text, pattern),
    ensures
        matching_lines(QueryView::CaseSensitive(pattern), text) == Seq::<Seq<char>>::empty(),
{
    let query = QueryView::CaseSensitive(pattern);
    assert forall|i: int| 0 <= i < lines_of(text).len() implies !query.matches(
        #[trigger] lines_of(text)[i],
    ) by {
        if has_substring(lines_of(text)[i], pattern) {
            lemma_lines_are_parts_of_text(text, i);
            lemma_substring_of_substring(text, lines_of(text)[i], pattern);
        }
    }
    lemma_no_selected_line_returns_nothing(query, text);
}

} // verus!
