//! The loose test: does a parenthesis that is no range still look like one?
//!
//! A parenthesis that the strict grammar turns down is either ordinary prose
//! or a range with a slip in it. The two are told apart by a regular
//! expression: an opening parenthesis, then a colon, one of the three dashes
//! and a second colon, then the closing parenthesis, with no other closing
//! parenthesis in between. Only a match that begins at the parenthesis itself
//! counts.

use vstd::prelude::*;
use vstd::slice::slice_subrange;
use crate::text::string_of;

verus! {

/// The pattern of a parenthesis that resembles a range.
pub const LOOSE_RANGE: &'static str = r"\([^)]*:[^)]*[-–—][^)]*:[^)]*\)";

/// The first match of the regular expression `pattern` in `haystack`, as the
/// `regex` crate finds it: the byte offset at which the match starts, and the
/// text that matched. `None` where nothing matches, and where `pattern` is not
/// a regular expression that the crate accepts.
pub uninterp spec fn regex_find(pattern: Seq<char>, haystack: Seq<char>) -> Option<(int, Seq<char>)>;

/// What [`find_first`] returned, as [`regex_find`] states it.
pub open spec fn found_view(found: Option<(usize, String)>) -> Option<(int, Seq<char>)> {
    match found {
        Some((start, text)) => Some((start as int, text@)),
        None => None,
    }
}

/// Searches `haystack` for `pattern` with `regex::Regex::new` and
/// `regex::Regex::find`.
///
/// Nothing is proved of the search: the contract only names its result, which
/// depends on the two arguments alone. The pattern is compiled at each call,
/// since a compiled expression is opaque to the verifier and a contract could
/// not say which pattern it was compiled from.
#[verifier::external_body]
fn find_first(pattern: &str, haystack: &str) -> (found: Option<(usize, String)>)
    ensures
        found_view(found) == regex_find(pattern@, haystack@),
{
    let compiled = regex::Regex::new(pattern).ok()?;
    compiled.find(haystack).map(|m| (m.start(), m.as_str().to_string()))
}

/// The offending text, where a search result begins at offset zero.
pub open spec fn offending(found: Option<(int, Seq<char>)>) -> Option<Seq<char>> {
    match found {
        Some((start, text)) => if start == 0 {
            Some(text)
        } else {
            None
        },
        None => None,
    }
}

/// The view of an optional string.
pub open spec fn text_view(text: Option<String>) -> Option<Seq<char>> {
    match text {
        Some(t) => Some(t@),
        None => None,
    }
}

/// Judges the result of a search that was made from a parenthesis on: the
/// parenthesis is malformed exactly if the match begins at it, and then the
/// matched text is what offends.
pub fn offending_text(found: Option<(usize, String)>) -> (text: Option<String>)
    ensures
        text_view(text) == offending(found_view(found)),
{
    match found {
        Some((start, text)) => if start == 0 {
            Some(text)
        } else {
            None
        },
        None => None,
    }
}

/// What the loose test says of a text that begins at a parenthesis: the
/// malformed range it begins with, if it begins with one.
pub open spec fn loose_range(rest: Seq<char>) -> Option<Seq<char>> {
    offending(regex_find(LOOSE_RANGE@, rest))
}

/// Applies the loose test to `text` from `from` on.
pub fn malformed_at(text: &[char], from: usize) -> (found: Option<String>)
    requires
        from <= text.len(),
    ensures
        text_view(found) == loose_range(text@.skip(from as int)),
{
    let rest = string_of(slice_subrange(text, from, text.len()));
    assert(rest@ == text@.skip(from as int));
    offending_text(find_first(LOOSE_RANGE, rest.as_str()))
}

} // verus!
