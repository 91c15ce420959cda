//! The link to the regex crate: compiled regexes are opaque values, and what
//! compilation and matching return is named by bodiless spec functions, since
//! regular-expression semantics is a function of the pattern and the haystack
//! alone.

use vstd::prelude::*;

verus! {

#[verifier::external_type_specification]
#[verifier::external_body]
pub struct ExRegex(regex::Regex);

/// The pattern source that a compiled regex was built from.
pub uninterp spec fn regex_source(re: regex::Regex) -> Seq<char>;

/// Whether `pattern` compiles as a regular expression (within the regex
/// crate's default size limit).
pub uninterp spec fn valid_regex(pattern: Seq<char>) -> bool;

/// What matching the regex compiled from `pattern` against `haystack`
/// captures: `None` when the regex does not match anywhere in the haystack,
/// otherwise one entry per capture group in declaration order, the whole
/// match at index 0, and an absent entry for each group that did not
/// participate in the match.
pub uninterp spec fn captures_of(pattern: Seq<char>, haystack: Seq<char>) -> Option<
    Seq<Option<Seq<char>>>,
>;

/// The group texts of an executable capture vector, as character sequences.
pub open spec fn groups_view(gs: Seq<Option<String>>) -> Seq<Option<Seq<char>>> {
    gs.map_values(
        |g: Option<String>|
            match g {
                Some(s) => Some(s@),
                None => None::<Seq<char>>,
            },
    )
}

/// Relies on regex::Regex::new: compiles the pattern, and returns the
/// compiled regex exactly when the pattern is a valid regular expression.
#[verifier::external_body]
pub(crate) fn regex_new(pattern: &str) -> (r: Option<regex::Regex>)
    ensures
        r is Some <==> valid_regex(pattern@),
        r is Some ==> regex_source(r->Some_0) == pattern@,
{
    regex::Regex::new(pattern).ok()
}

/// Relies on regex::Regex::captures and regex::Captures::iter: the leftmost
/// match's groups come in declaration order, the whole match first and always
/// present, with `None` for each group that did not participate.
#[verifier::external_body]
pub(crate) fn regex_captures(re: &regex::Regex, haystack: &str) -> (r: Option<Vec<Option<String>>>)
    ensures
        r is Some <==> captures_of(regex_source(*re), haystack@) is Some,
        r is Some ==> groups_view(r->Some_0@) == captures_of(regex_source(*re), haystack@)->Some_0
            && r->Some_0@.len() >= 1 && r->Some_0@[0] is Some,
{
    match re.captures(haystack) {
        None => None,
        Some(caps) => Some(caps.iter().map(|m| m.map(|v| v.as_str().to_string())).collect()),
    }
}

} // verus!
