//! Regular-expression searches. The matching itself is done by the `regex`
//! crate; what a search returns is named here and believed, not proved.

use vstd::prelude::*;
use crate::text::{contains, option_view};

verus! {

/// What the first capture group holds in the leftmost match of `pattern` in
/// `haystack`: `None` where the pattern does not compile, where nothing
/// matches, or where the match leaves the group out.
pub uninterp spec fn regex_first_group(pattern: Seq<char>, haystack: Seq<char>) -> Option<Seq<char>>;

/// What the first two capture groups hold in each of the successive
/// non-overlapping matches of `pattern` in `haystack`, in the order of the
/// matches; empty where the pattern does not compile. A group that a match
/// leaves out is `None`.
pub uninterp spec fn regex_group_pairs(pattern: Seq<char>, haystack: Seq<char>) -> Seq<(Option<Seq<char>>, Option<Seq<char>>)>;

/// The views of the pairs that a search over all matches hands back.
pub open spec fn pair_views(pairs: Seq<(Option<String>, Option<String>)>) -> Seq<(Option<Seq<char>>, Option<Seq<char>>)> {
    Seq::new(pairs.len(), |i: int| (option_view(pairs[i].0), option_view(pairs[i].1)))
}

/// What a search for the first group finds: the group of the leftmost
/// match, which is a part of the text that was searched.
pub open spec fn captured(pattern: Seq<char>, haystack: Seq<char>) -> Option<Seq<char>> {
    match regex_first_group(pattern, haystack) {
        Some(group) => if contains(haystack, group) {
            Some(group)
        } else {
            None
        },
        None => None,
    }
}

/// Compiles `pattern` with `regex::Regex::new`, searches `haystack` with
/// `regex::Regex::captures` and copies out group 1 of the match. The contract
/// claims that the outcome is a function of the two texts, and that a group
/// is a part of the haystack: `regex::Match::as_str` hands out a slice of
/// it.
#[verifier::external_body]
pub(crate) fn first_group(pattern: &str, haystack: &str) -> (found: Option<String>)
    ensures
        option_view(found) == regex_first_group(pattern@, haystack@),
        found matches Some(group) ==> contains(haystack@, group@),
{
    match regex::Regex::new(pattern) {
        Ok(re) => re.captures(haystack).and_then(|c| c.get(1)).map(|m| m.as_str().to_string()),
        Err(_) => None,
    }
}

/// Compiles `pattern` with `regex::Regex::new`, walks the matches that
/// `regex::Regex::captures_iter` yields over `haystack` and copies out groups
/// 1 and 2 of each. The contract claims only that the outcome is a function
/// of the two texts.
#[verifier::external_body]
pub(crate) fn group_pairs(pattern: &str, haystack: &str) -> (found: Vec<(Option<String>, Option<String>)>)
    ensures
        pair_views(found@) == regex_group_pairs(pattern@, haystack@),
{
    match regex::Regex::new(pattern) {
        Ok(re) => re.captures_iter(haystack).map(
            |c| (
                c.get(1).map(|m| m.as_str().to_string()),
                c.get(2).map(|m| m.as_str().to_string()),
            ),
        ).collect(),
        Err(_) => Vec::new(),
    }
}

} // verus!
