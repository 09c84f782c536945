//! Testing a URL against the shape of a recipe URL. The shape is a regular
//! expression and matching it is the work of the `regex` crate.

use vstd::prelude::*;

verus! {

/// Whether `regex::Regex::new` compiles `pattern`.
pub uninterp spec fn regex_compiles(pattern: Seq<char>) -> bool;

/// Whether the regular expression compiled from `pattern` has a match
/// anywhere in `text`, as `regex::Regex::is_match` reports it.
pub uninterp spec fn regex_is_match(pattern: Seq<char>, text: Seq<char>) -> bool;

/// Calls `regex::Regex::new` and says whether the pattern compiled. Trusted:
/// the answer depends on the pattern alone.
#[verifier::external_body]
pub(crate) fn regex_is_valid(pattern: &str) -> (ok: bool)
    ensures
        ok == regex_compiles(pattern@),
{
    regex::Regex::new(pattern).is_ok()
}

/// Compiles `pattern` with `regex::Regex::new` and searches `text` with
/// `regex::Regex::is_match`. Trusted: the answer depends on the two texts
/// alone.
#[verifier::external_body]
pub(crate) fn regex_matches(pattern: &str, text: &str) -> (found: bool)
    requires
        regex_compiles(pattern@),
    ensures
        found == regex_is_match(pattern@, text@),
{
    regex::Regex::new(pattern).unwrap().is_match(text)
}

} // verus!
