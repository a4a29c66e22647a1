//! The search pattern and its comparison mode.

use crate::case::lowercase;
use crate::substring::{contains, has_substring};
use vstd::prelude::*;

verus! {

/// A pattern together with the way lines are compared with it.
pub enum Query {
    /// The pattern as it was given.
    CaseSensitive(String),
    /// The pattern in lowercase.
    CaseInsensitive(String),
}

/// The mathematical value of a [`Query`].
pub enum QueryView {
    CaseSensitive(Seq<char>),
    CaseInsensitive(Seq<char>),
}

impl QueryView {
    /// The stored pattern.
    pub open spec fn pattern(self) -> Seq<char> {
        match self {
            QueryView::CaseSensitive(pattern) => pattern,
            QueryView::CaseInsensitive(pattern) => pattern,
        }
    }

    /// Whether `line` is selected: it contains the pattern as it stands, or, for a
    /// case-insensitive query, its lowercase form contains the stored pattern.
    pub open spec fn matches(self, line: Seq<char>) -> bool {
        match self {
            QueryView::CaseSensitive(pattern) => has_substring(line, pattern),
            QueryView::CaseInsensitive(pattern) => has_substring(lowercase(line), pattern),
        }
    }

    /// A case-insensitive query stores the lowercase form of some pattern.
    pub open spec fn wf(self) -> bool {
        self matches QueryView::CaseInsensitive(pattern) ==> exists|raw: Seq<char>|
            pattern == lowercase(raw)
    }
}

impl View for Query {
    type V = QueryView;

    open spec fn view(&self) -> QueryView {
        match self {
            Query::CaseSensitive(pattern) => QueryView::CaseSensitive(pattern@),
            Query::CaseInsensitive(pattern) => QueryView::CaseInsensitive(pattern@),
        }
    }
}

impl Query {
    /// A query that matches `query` exactly.
    pub fn as_case_sensitive(query: String) -> (made: Query)
        ensures
            made@ == QueryView::CaseSensitive(query@),
            made@.wf(),
    {
        Query::CaseSensitive(query)
    }

    /// A query that matches `query` whatever the case; it is lowercased here, once.
    pub fn as_case_insensitive(query: String) -> (made: Query)
        ensures
            made@ == QueryView::CaseInsensitive(lowercase(query@)),
            made@.wf(),
    {
        Query::CaseInsensitive(query.to_lowercase())
    }

    /// The stored pattern.
    pub fn pattern(&self) -> (pattern: &str)
        ensures
            pattern@ == self@.pattern(),
    {
        match self {
            Query::CaseSensitive(pattern) => pattern.as_str(),
            Query::CaseInsensitive(pattern) => pattern.as_str(),
        }
    }

    /// Whether `line` is selected by this query.
    pub fn matches(&self, line: &str) -> (selected: bool)
        ensures
            selected == self@.matches(line@),
    {
        match self {
            Query::CaseSensitive(pattern) => contains(line, pattern.as_str()),
            Query::CaseInsensitive(pattern) => {
                let lowered = line.to_lowercase();
                contains(lowered.as_str(), pattern.as_str())
            },
        }
    }
}

} // verus!
