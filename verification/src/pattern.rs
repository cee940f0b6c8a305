//! Regular expressions that the user gives.

use vstd::prelude::*;

verus! {

/// Why a pattern is no regular expression; `None` where it is one.
pub uninterp spec fn pattern_error(pattern: Seq<char>) -> Option<Seq<char>>;

/// Whether a regular expression matches somewhere in a text.
pub uninterp spec fn pattern_matches(pattern: Seq<char>, text: Seq<char>) -> bool;

/// `regex::Regex::new`: whether a pattern compiles, and the text of the error
/// where it does not. Both are decided by the pattern alone. Which patterns
/// compile is left unsaid.
#[verifier::external_body]
pub(crate) fn check_pattern(pattern: &str) -> (r: Option<String>)
    ensures
        match r {
            Some(reason) => pattern_error(pattern@) == Some(reason@),
            None => pattern_error(pattern@) is None,
        },
{
    match regex::Regex::new(pattern) {
        Ok(_) => None,
        Err(err) => Some(err.to_string()),
    }
}

/// `regex::Regex::is_match`, with a pattern that compiles: whether it matches
/// somewhere in `text`. The pattern and the text alone decide; what a pattern
/// matches is left unsaid.
#[verifier::external_body]
pub(crate) fn is_match(pattern: &str, text: &str) -> (r: bool)
    requires
        pattern_error(pattern@) is None,
    ensures
        r == pattern_matches(pattern@, text@),
{
    let compiled = regex::Regex::new(pattern).expect("the pattern compiles");
    compiled.is_match(text)
}

} // verus!
