//! Lowercasing, which the standard library computes from its Unicode tables.

use vstd::prelude::*;

verus! {

/// The lowercase form of `text` as `str::to_lowercase` computes it.
pub uninterp spec fn lowercase(text: Seq<char>) -> Seq<char>;

/// `str::to_lowercase` returns the lowercase equivalent of a string slice as a new
/// `String`. Believed of it, not proved: the result depends on the characters of the
/// slice and on nothing else, so that it can be called `lowercase` of them. What the
/// lowercase form of a given text is, is not stated.
pub assume_specification[ str::to_lowercase ](text: &str) -> (lowered: String)
    ensures
        lowered@ == lowercase(text@),
;

} // verus!
