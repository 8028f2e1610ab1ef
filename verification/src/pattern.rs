//! The patterns by which a run is narrowed down.

use regex::Regex;
use vstd::prelude::*;

verus! {

/// [`regex::Regex`], a compiled regular expression, carried as an opaque value.
#[verifier::external_type_specification]
#[verifier::external_body]
pub struct ExRegex(regex::Regex);

/// What [`regex::Regex::as_str`] returns: the text that the expression was compiled from.
pub uninterp spec fn regex_text(pattern: Regex) -> Seq<char>;

/// What [`regex::Regex::is_match`] returns: whether the expression matches anywhere in the
/// haystack.
pub uninterp spec fn regex_matches(pattern: Regex, haystack: Seq<char>) -> bool;

/// Calls [`regex::Regex::as_str`], and claims of it only that the text depends on the
/// expression alone.
#[verifier::external_body]
pub(crate) fn text_of(pattern: &Regex) -> (text: &str)
    ensures
        text@ == regex_text(*pattern),
{
    pattern.as_str()
}

/// Calls [`regex::Regex::is_match`], and claims of it only that the answer depends on the
/// expression and the haystack alone.
#[verifier::external_body]
pub(crate) fn is_match(pattern: &Regex, haystack: &str) -> (matched: bool)
    ensures
        matched == regex_matches(*pattern, haystack@),
{
    pattern.is_match(haystack)
}

/// A glob pattern over paths, by its text.
///
/// Whether a path matches is settled by whoever holds the compiled pattern, and comes in with the
/// path (see [`crate::resolve::SourceFile`]).
pub struct GlobPattern {
    /// The pattern as given.
    pub text: String,
}

impl GlobPattern {
    /// The pattern as given.
    pub fn as_str(&self) -> (text: &str)
        ensures
            text@ == self.text@,
    {
        self.text.as_str()
    }
}

} // verus!
