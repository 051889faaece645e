//! The parts of the `regex` crate that a search uses.
//!
//! A compiled expression is opaque here; each call has a wrapper whose contract
//! names what the call returns.

use vstd::prelude::*;

verus! {

/// Declares `regex::bytes::Regex`.
#[verifier::external_type_specification]
#[verifier::external_body]
pub struct ExRegex(regex::bytes::Regex);

/// Declares `regex::Error`.
#[verifier::external_type_specification]
#[verifier::external_body]
pub struct ExRegexError(regex::Error);

/// What `regex::bytes::RegexBuilder::build` returns for a pattern and its case
/// behavior.
pub uninterp spec fn built_regex(pattern: Seq<char>, case_insensitive: bool) -> Result<
    regex::bytes::Regex,
    regex::Error,
>;

/// The text that a `regex::Error` displays.
pub uninterp spec fn regex_error_text(error: regex::Error) -> Seq<char>;

/// What `regex::bytes::Regex::is_match` returns.
pub uninterp spec fn regex_matches(regex: regex::bytes::Regex, haystack: Seq<u8>) -> bool;

/// Calls `regex::bytes::RegexBuilder::build` with the case behavior set and
/// everything else at its default.
///
/// Claims that the outcome depends on the pattern and the case behavior alone.
#[verifier::external_body]
pub(crate) fn build_regex(pattern: &str, case_insensitive: bool) -> (result: Result<
    regex::bytes::Regex,
    regex::Error,
>)
    ensures
        result == built_regex(pattern@, case_insensitive),
{
    regex::bytes::RegexBuilder::new(pattern).case_insensitive(case_insensitive).build()
}

/// Calls `to_string` of `regex::Error` and names the text.
#[verifier::external_body]
pub(crate) fn display_regex_error(error: &regex::Error) -> (text: String)
    ensures
        text@ == regex_error_text(*error),
{
    error.to_string()
}

/// Calls `regex::bytes::Regex::is_match`.
///
/// Claims that the answer depends on the expression and the haystack alone.
#[verifier::external_body]
pub(crate) fn regex_is_match(regex: &regex::bytes::Regex, haystack: &[u8]) -> (matching: bool)
    ensures
        matching == regex_matches(*regex, haystack@),
{
    regex.is_match(haystack)
}

} // verus!
