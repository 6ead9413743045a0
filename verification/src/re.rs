use vstd::prelude::*;

verus! {

#[verifier::external_type_specification]
#[verifier::external_body]
pub struct ExRegex(regex::Regex);

#[verifier::external_type_specification]
#[verifier::external_body]
pub struct ExRegexSet(regex::RegexSet);

/// Whether a pattern is one the regular-expression engine accepts;
/// compilation succeeds or fails by the pattern alone.
pub uninterp spec fn regex_valid(pattern: Seq<char>) -> bool;

/// Whether a compiled expression matches somewhere in a text; the result
/// is a function of the compiled expression and the text alone.
pub uninterp spec fn regex_matches(re: regex::Regex, text: Seq<char>) -> bool;

/// Whether a pattern list is one the engine accepts as a set.
pub uninterp spec fn regex_set_valid(patterns: Seq<Seq<char>>) -> bool;

/// Whether any expression of a compiled set matches somewhere in a text.
pub uninterp spec fn regex_set_matches(set: regex::RegexSet, text: Seq<char>) -> bool;

/// Relies on `regex::Regex::new`: compiling succeeds exactly for the
/// patterns the engine accepts, deterministically in the pattern.
#[verifier::external_body]
pub(crate) fn regex_new(pattern: &str) -> (r: Option<regex::Regex>)
    ensures
        r is Some <==> regex_valid(pattern@),
{
    regex::Regex::new(pattern).ok()
}

/// Relies on `regex::Regex::is_match`: the answer depends only on the
/// compiled expression and the text searched.
#[verifier::external_body]
pub(crate) fn regex_is_match(re: &regex::Regex, text: &str) -> (r: bool)
    ensures
        r == regex_matches(*re, text@),
{
    re.is_match(text)
}

/// Relies on `regex::RegexSet::new`: compiling succeeds exactly for the
/// pattern lists the engine accepts, deterministically in the list.
#[verifier::external_body]
pub(crate) fn regex_set_new(patterns: &Vec<String>) -> (r: Option<regex::RegexSet>)
    ensures
        r is Some <==> regex_set_valid(patterns@.map_values(|p: String| p@)),
{
    regex::RegexSet::new(patterns).ok()
}

/// Relies on `regex::RegexSet::is_match`: the answer depends only on the
/// compiled set and the text searched.
#[verifier::external_body]
pub(crate) fn regex_set_is_match(set: &regex::RegexSet, text: &str) -> (r: bool)
    ensures
        r == regex_set_matches(*set, text@),
{
    set.is_match(text)
}

} // verus!
