//! Pattern search over text, delegated to the `regex` crate.

use regex::Regex;
use vstd::prelude::*;

verus! {

/// What a search with `pattern` finds in `haystack`: `None` when the pattern is refused,
/// otherwise one entry per match, in order of appearance. An entry lists the capture
/// groups of its match, group 0 (the whole match) first; a group that took no part in
/// the match is `None`.
pub uninterp spec fn regex_captures(pattern: Seq<char>, haystack: Seq<char>) -> Option<
    Seq<Seq<Option<Seq<char>>>>,
>;

/// Compiles `pattern` with `regex::Regex::new` and collects what
/// `regex::Regex::captures_iter` yields on `haystack`, each group read through
/// `regex::Captures::iter` and `regex::Match::as_str`.
///
/// Nothing is claimed about which matches are found: the result is only given the name
/// [`regex_captures`], which makes it a function of the two texts.
#[verifier::external_body]
pub(crate) fn captures(pattern: &str, haystack: &str) -> (found: Option<Vec<Vec<Option<String>>>>)
    ensures
        found.deep_view() == regex_captures(pattern@, haystack@),
{
    let re = Regex::new(pattern).ok()?;
    Some(
        re.captures_iter(haystack).map(
            |c| c.iter().map(|g| g.map(|m| m.as_str().to_string())).collect(),
        ).collect(),
    )
}

} // verus!
