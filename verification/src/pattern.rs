//! Regular expressions, as the `regex` crate has them.

use regex::Regex;
use vstd::prelude::*;

verus! {

/// Declares the compiled expression of `regex`.
#[verifier::external_type_specification]
#[verifier::external_body]
pub struct ExRegex(regex::Regex);

/// The pattern that a compiled expression holds, as `Regex::as_str` tells it.
pub uninterp spec fn pattern_of(re: Regex) -> Seq<char>;

/// Whether `Regex::new` accepts a pattern.
pub uninterp spec fn compiles(pattern: Seq<char>) -> bool;

/// What `Regex::captures` finds in a text: nothing where there is no match, else the text of the
/// match's first group, where that took part in it.
pub uninterp spec fn first_match(pattern: Seq<char>, text: Seq<char>) -> Option<Option<Seq<char>>>;

/// What `Regex::captures_iter` finds in a text: for each match in order, the text of its first
/// group, where that took part in it.
pub uninterp spec fn all_matches(pattern: Seq<char>, text: Seq<char>) -> Seq<Option<Seq<char>>>;

/// Whether `Regex::is_match` finds a match in a text.
pub uninterp spec fn has_match(pattern: Seq<char>, text: Seq<char>) -> bool;

/// Calls `Regex::new`; nothing where it fails. Claimed: whether it succeeds depends on the pattern
/// alone, and the compiled expression holds the pattern.
#[verifier::external_body]
pub(crate) fn compile(pattern: &str) -> (r: Option<Regex>)
    ensures
        r is Some == compiles(pattern@),
        r matches Some(re) ==> pattern_of(re) == pattern@,
{
    Regex::new(pattern).ok()
}

/// The texts of a list of groups.
pub open spec fn group_views(groups: Seq<Option<String>>) -> Seq<Option<Seq<char>>> {
    groups.map_values(|g: Option<String>| crate::state::text_of(g))
}

/// Calls `Regex::captures` and takes the first group with `Captures::get`. Claimed: the result
/// depends on the pattern and the text alone.
#[verifier::external_body]
pub(crate) fn find_first(re: &Regex, text: &str) -> (r: Option<Option<String>>)
    ensures
        match r {
            Some(group) => first_match(pattern_of(*re), text@) == Some(crate::state::text_of(group)),
            None => first_match(pattern_of(*re), text@) is None,
        },
{
    re.captures(text).map(|c| c.get(1).map(|m| m.as_str().to_owned()))
}

/// Calls `Regex::captures_iter` and takes the first group of each match with `Captures::get`.
/// Claimed: the result depends on the pattern and the text alone.
#[verifier::external_body]
pub(crate) fn find_all(re: &Regex, text: &str) -> (r: Vec<Option<String>>)
    ensures
        group_views(r@) == all_matches(pattern_of(*re), text@),
{
    re.captures_iter(text).map(|c| c.get(1).map(|m| m.as_str().to_owned())).collect()
}

/// Calls `Regex::is_match`. Claimed: the result depends on the pattern and the text alone.
#[verifier::external_body]
pub(crate) fn matches(re: &Regex, text: &str) -> (r: bool)
    ensures
        r == has_match(pattern_of(*re), text@),
{
    re.is_match(text)
}

} // verus!
