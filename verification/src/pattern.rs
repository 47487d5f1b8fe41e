//! Regular-expression matching, by the `regex` crate.
//!
//! A capture is given as the list of its groups by index (group 0 is the
//! whole match); a group that did not take part in the match is `None`.

use vstd::prelude::*;

verus! {

/// `Regex::new(pattern)` then `Regex::is_match(text)`; `false` where the
/// pattern does not compile.
pub uninterp spec fn regex_is_match(pattern: Seq<char>, text: Seq<char>) -> bool;

/// `Regex::new(pattern)` then `Regex::captures(text)`: the groups of the
/// leftmost-first match; `None` where there is no match or the pattern does
/// not compile.
pub uninterp spec fn regex_first_captures(pattern: Seq<char>, text: Seq<char>) -> Option<
    Seq<Option<Seq<char>>>,
>;

/// `Regex::new(pattern)` then `Regex::captures_iter(text)`: the groups of
/// each successive non-overlapping match; empty where the pattern does not
/// compile.
pub uninterp spec fn regex_all_captures(pattern: Seq<char>, text: Seq<char>) -> Seq<
    Seq<Option<Seq<char>>>,
>;

/// `regex::Regex::is_match`.
#[verifier::external_body]
pub(crate) fn is_match(pattern: &str, text: &str) -> (r: bool)
    ensures
        r == regex_is_match(pattern@, text@),
{
    match regex::Regex::new(pattern) {
        Ok(re) => re.is_match(text),
        Err(_) => false,
    }
}

/// `regex::Regex::captures`, each group converted to an owned string.
#[verifier::external_body]
pub(crate) fn first_captures(pattern: &str, text: &str) -> (r: Option<Vec<Option<String>>>)
    ensures
        r.deep_view() == regex_first_captures(pattern@, text@),
{
    match regex::Regex::new(pattern) {
        Ok(re) => re.captures(text).map(
            |c| c.iter().map(|g| g.map(|m| m.as_str().to_string())).collect(),
        ),
        Err(_) => None,
    }
}

/// `regex::Regex::captures_iter`, each group converted to an owned string.
#[verifier::external_body]
pub(crate) fn all_captures(pattern: &str, text: &str) -> (r: Vec<Vec<Option<String>>>)
    ensures
        r.deep_view() == regex_all_captures(pattern@, text@),
{
    match regex::Regex::new(pattern) {
        Ok(re) => re.captures_iter(text).map(
            |c| c.iter().map(|g| g.map(|m| m.as_str().to_string())).collect(),
        ).collect(),
        Err(_) => Vec::new(),
    }
}

/// The group at `index` of a capture; `None` for an index past its groups.
pub open spec fn group(capture: Seq<Option<Seq<char>>>, index: int) -> Option<Seq<char>> {
    if 0 <= index < capture.len() {
        capture[index]
    } else {
        None
    }
}

} // verus!
