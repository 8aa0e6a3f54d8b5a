//! Banned-pattern matching, backed by regular expressions.
//!
//! A pattern is kept as its source text; what compiling and matching it
//! return is named here and relied on, not restated.

use vstd::prelude::*;

verus! {

/// Whether `pattern` is a valid regular expression: what
/// `regex::Regex::new` returns for it, a function of the pattern alone
/// (with the crate's default configuration).
pub uninterp spec fn pattern_compiles(pattern: Seq<char>) -> bool;

/// Whether the regular expression `pattern` matches anywhere in
/// `text`: what `regex::Regex::is_match` returns, a function of the
/// pattern and the text alone.
pub uninterp spec fn pattern_matches(pattern: Seq<char>, text: Seq<char>) -> bool;

/// Relies on regex::Regex::new with its default configuration: whether
/// the pattern is a valid regular expression.
#[verifier::external_body]
pub(crate) fn compile_check(pattern: &str) -> (r: bool)
    ensures
        r == pattern_compiles(pattern@),
{
    regex::Regex::new(pattern).is_ok()
}

/// Relies on regex::Regex::new and regex::Regex::is_match: `Some`
/// exactly when the pattern compiles, and then whether it matches
/// anywhere in the text.
#[verifier::external_body]
pub(crate) fn try_match(pattern: &str, text: &str) -> (r: Option<bool>)
    ensures
        r is Some <==> pattern_compiles(pattern@),
        r matches Some(m) ==> m == pattern_matches(pattern@, text@),
{
    regex::Regex::new(pattern).ok().map(|re| re.is_match(text))
}

} // verus!
