//! Regular expressions, as the `regex` crate understands them.
use crate::timespec::{number_form, range_form, wildcard_form, NUMBER, RANGE, WILDCARD};
use vstd::prelude::*;

verus! {

/// The error type of the `regex` crate.
#[verifier::external_type_specification]
#[verifier::external_body]
pub struct ExRegexError(regex::Error);

/// Whether `regex::Regex::new` accepts a pattern: one that is malformed or too big is refused.
pub uninterp spec fn regex_compiles(pattern: Seq<char>) -> bool;

/// Whether `regex::Regex::is_match`, on the expression compiled from `pattern`, finds a match
/// anywhere in `text`.
pub uninterp spec fn regex_finds(pattern: Seq<char>, text: Seq<char>) -> bool;

/// `regex::Regex::new` and then `regex::Regex::is_match`: compiles `pattern` and searches `text`
/// for a match. Both depend on nothing but the pattern and the text. The last three clauses say
/// what the crate's documented syntax makes of the three patterns of a time specification.
#[verifier::external_body]
pub(crate) fn regex_is_match(pattern: &str, text: &str) -> (found: Result<bool, regex::Error>)
    ensures
        found.is_ok() == regex_compiles(pattern@),
        found.is_ok() ==> found.unwrap() == regex_finds(pattern@, text@),
        pattern@ == NUMBER@ ==> found.is_ok() && found.unwrap() == number_form(text@),
        pattern@ == RANGE@ ==> found.is_ok() && found.unwrap() == range_form(text@),
        pattern@ == WILDCARD@ ==> found.is_ok() && found.unwrap() == wildcard_form(text@),
{
    Ok(regex::Regex::new(pattern)?.is_match(text))
}

} // verus!
