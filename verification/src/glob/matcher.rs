//! The regular expression engine that globs compile to, from the `regex`
//! crate (byte-oriented regular expressions).

use vstd::prelude::*;

verus! {

#[verifier::external_type_specification]
#[verifier::external_body]
pub struct ExRegex(regex::bytes::Regex);

#[verifier::external_type_specification]
#[verifier::external_body]
pub struct ExRegexError(regex::Error);

/// The compiled regular expression of a pattern text, or `None` when the
/// text is not a valid regular expression; as `regex::bytes::Regex::new`
/// computes it.
pub uninterp spec fn compiled(pattern: Seq<char>) -> Option<regex::bytes::Regex>;

/// Whether a compiled regular expression matches somewhere in `text`, as
/// `regex::bytes::Regex::is_match` computes it.
pub uninterp spec fn regex_matches(re: regex::bytes::Regex, text: Seq<u8>) -> bool;

/// The capture groups of the leftmost-first match of a regular expression in
/// `text` (`None` when there is no match): for each group, in order and
/// beginning with the whole match, its byte range, or `None` where the group
/// did not take part in the match; as `regex::bytes::Regex::captures`
/// computes them.
pub uninterp spec fn regex_groups(re: regex::bytes::Regex, text: Seq<u8>) -> Option<Seq<Option<(usize, usize)>>>;

/// `regex::bytes::Regex::new`: compiles a pattern. Its result is named
/// `compiled`; which texts are valid regular expressions is not described
/// here.
#[verifier::external_body]
pub(crate) fn regex_new(pattern: &str) -> (r: Result<regex::bytes::Regex, regex::Error>)
    ensures
        r is Ok <==> compiled(pattern@) is Some,
        r matches Ok(re) ==> compiled(pattern@) == Some(re),
{
    regex::bytes::Regex::new(pattern)
}

/// `regex::bytes::Regex::is_match`: whether the regular expression matches
/// somewhere in `text`. The result is named `regex_matches`.
#[verifier::external_body]
pub(crate) fn regex_is_match(re: &regex::bytes::Regex, text: &[u8]) -> (r: bool)
    ensures
        r == regex_matches(*re, text@),
{
    re.is_match(text)
}

/// `regex::bytes::Regex::captures`, with each group given by its byte range.
/// The result is named `regex_groups`; as the crate documents, there is a
/// result exactly when `is_match` holds, it always holds the whole match as
/// its first group, and every range lies within `text`.
#[verifier::external_body]
pub(crate) fn regex_captures(re: &regex::bytes::Regex, text: &[u8]) -> (r: Option<Vec<Option<(usize, usize)>>>)
    ensures
        r is Some <==> regex_matches(*re, text@),
        r is Some <==> regex_groups(*re, text@) is Some,
        r matches Some(groups) ==> {
            &&& regex_groups(*re, text@) == Some(groups@)
            &&& groups@.len() > 0
            &&& groups@[0] is Some
            &&& forall|i: int| 0 <= i < groups@.len() ==> (#[trigger] groups@[i] matches Some((s, e)) ==> s <= e <= text@.len())
        },
{
    match re.captures(text) {
        Some(c) => Some(c.iter().map(|m| m.map(|m| (m.start(), m.end()))).collect()),
        None => None,
    }
}

} // verus!
