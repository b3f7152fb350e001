//! Regular expressions, as the `regex` crate compiles and runs them.
//!
//! A pattern is held as its source text. Nothing here is proved of the
//! regex engine: each function below hands its arguments to the crate and
//! names what comes back, so that the rules built on top can be stated and
//! proved exactly.

use regex::Regex;
use vstd::prelude::*;
use crate::text::views;

verus! {

/// Whether `Regex::new` accepts the pattern.
pub uninterp spec fn pattern_compiles(pattern: Seq<char>) -> bool;

/// Whether `Regex::is_match` finds the pattern anywhere in the text.
pub uninterp spec fn pattern_matches(pattern: Seq<char>, text: Seq<char>) -> bool;

/// The texts of the successive non-overlapping matches that
/// `Regex::find_iter` yields, in order.
pub uninterp spec fn pattern_found(pattern: Seq<char>, text: Seq<char>) -> Seq<Seq<char>>;

/// The pieces that `Regex::split` yields: the parts of the text that lie
/// before, between and after the successive matches, in order.
pub uninterp spec fn pattern_gaps(pattern: Seq<char>, text: Seq<char>) -> Seq<Seq<char>>;

/// What `Regex::replace` returns: the text with its leftmost match
/// replaced, capture references in the replacement expanded.
pub uninterp spec fn pattern_replaced_first(
    pattern: Seq<char>,
    text: Seq<char>,
    replacement: Seq<char>,
) -> Seq<char>;

/// What `Regex::replace_all` returns: the text with every non-overlapping
/// match replaced, capture references in the replacement expanded.
pub uninterp spec fn pattern_replaced_all(
    pattern: Seq<char>,
    text: Seq<char>,
    replacement: Seq<char>,
) -> Seq<char>;

/// Calls `Regex::new` and reports whether the pattern was accepted.
/// Trusted: the answer is a function of the pattern alone.
#[verifier::external_body]
pub(crate) fn compiles(pattern: &str) -> (ok: bool)
    ensures
        ok == pattern_compiles(pattern@),
{
    Regex::new(pattern).is_ok()
}

/// Calls `Regex::is_match` on the compiled pattern. Trusted: the answer is
/// a function of pattern and text alone.
#[verifier::external_body]
pub(crate) fn is_match(pattern: &str, text: &str) -> (m: bool)
    requires
        pattern_compiles(pattern@),
    ensures
        m == pattern_matches(pattern@, text@),
{
    Regex::new(pattern).unwrap().is_match(text)
}

/// Calls `Regex::find_iter` on the compiled pattern and copies out the text
/// of each match. Trusted: the matches are a function of pattern and text
/// alone.
#[verifier::external_body]
pub(crate) fn found(pattern: &str, text: &str) -> (r: Vec<String>)
    requires
        pattern_compiles(pattern@),
    ensures
        views(r@) == pattern_found(pattern@, text@),
{
    Regex::new(pattern).unwrap().find_iter(text).map(|m| m.as_str().to_string()).collect()
}

/// Calls `Regex::split` on the compiled pattern and copies out each piece.
/// Trusted: the pieces are a function of pattern and text alone.
#[verifier::external_body]
pub(crate) fn gaps(pattern: &str, text: &str) -> (r: Vec<String>)
    requires
        pattern_compiles(pattern@),
    ensures
        views(r@) == pattern_gaps(pattern@, text@),
{
    Regex::new(pattern).unwrap().split(text).map(|piece| piece.to_string()).collect()
}

/// Calls `Regex::replace` with the replacement as a string, so that `$1`,
/// `$name` and the like are expanded. Trusted: the result is a function of
/// the three texts alone, and, as the crate documents, a text in which the
/// pattern has no match comes back unchanged.
#[verifier::external_body]
pub(crate) fn replace_first(pattern: &str, text: &str, replacement: &str) -> (r: String)
    requires
        pattern_compiles(pattern@),
    ensures
        r@ == pattern_replaced_first(pattern@, text@, replacement@),
        !pattern_matches(pattern@, text@) ==> r@ == text@,
{
    Regex::new(pattern).unwrap().replace(text, replacement).into_owned()
}

/// Calls `Regex::replace_all` with the replacement as a string, so that
/// `$1`, `$name` and the like are expanded. Trusted: the result is a
/// function of the three texts alone, and, as the crate documents, a text
/// in which the pattern has no match comes back unchanged.
#[verifier::external_body]
pub(crate) fn replace_all(pattern: &str, text: &str, replacement: &str) -> (r: String)
    requires
        pattern_compiles(pattern@),
    ensures
        r@ == pattern_replaced_all(pattern@, text@, replacement@),
        !pattern_matches(pattern@, text@) ==> r@ == text@,
{
    Regex::new(pattern).unwrap().replace_all(text, replacement).into_owned()
}

} // verus!
