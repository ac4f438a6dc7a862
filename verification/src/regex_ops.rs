//! Regular-expression operations, relied upon from the `regex` crate. What
//! a regex matches is not restated here; instead each operation's result is
//! named as a function of the pattern and the haystack, which is sound
//! because the crate's matching is a pure function of those two strings.

use vstd::prelude::*;

verus! {

#[verifier::external_type_specification]
#[verifier::external_body]
pub struct ExRegex(regex::Regex);

/// Whether a pattern is accepted by the regex compiler.
pub uninterp spec fn regex_ok(p: Seq<char>) -> bool;

/// The pattern a compiled regex holds; `regex::Regex` stores its pattern
/// string and `Regex::as_str` returns it unchanged.
pub uninterp spec fn regex_pattern(re: regex::Regex) -> Seq<char>;

/// The concatenation, in order, of all non-overlapping leftmost matches of
/// the pattern in the haystack.
pub uninterp spec fn regex_find_concat(p: Seq<char>, t: Seq<char>) -> Seq<char>;

/// The haystack with every non-overlapping match of the pattern replaced by
/// the replacement (with the crate's `$group` expansion).
pub uninterp spec fn regex_replace_all(p: Seq<char>, rep: Seq<char>, t: Seq<char>) -> Seq<char>;

/// Whether the pattern matches anywhere in the haystack.
pub uninterp spec fn regex_is_match(p: Seq<char>, t: Seq<char>) -> bool;

/// Relies on `regex::Regex::new`: it compiles exactly the valid patterns,
/// and the compiled value keeps the pattern string it was built from.
#[verifier::external_body]
pub(crate) fn regex_compile(p: &str) -> (r: Option<regex::Regex>)
    ensures
        match r {
            Some(re) => regex_ok(p@) && regex_pattern(re) == p@,
            None => !regex_ok(p@),
        },
{
    regex::Regex::new(p).ok()
}

/// Relies on `regex::Regex::find_iter` and `Match::as_str`: the iterator
/// yields the successive non-overlapping matches from the start of the
/// haystack, and yields nothing when the pattern does not match at all.
#[verifier::external_body]
pub(crate) fn regex_extract(re: &regex::Regex, t: &str) -> (r: String)
    ensures
        r@ == regex_find_concat(regex_pattern(*re), t@),
        !regex_is_match(regex_pattern(*re), t@) ==> r@ == Seq::<char>::empty(),
{
    re.find_iter(t).map(|m| m.as_str()).collect()
}

/// Relies on `regex::Regex::is_match`.
#[verifier::external_body]
pub(crate) fn regex_matches(re: &regex::Regex, t: &str) -> (r: bool)
    ensures
        r == regex_is_match(regex_pattern(*re), t@),
{
    re.is_match(t)
}

/// Relies on `regex::Regex::replace_all` with a string replacement: every
/// non-overlapping match is substituted, and a haystack without a match
/// comes back unchanged.
#[verifier::external_body]
pub(crate) fn regex_replace(re: &regex::Regex, t: &str, rep: &str) -> (r: String)
    ensures
        r@ == regex_replace_all(regex_pattern(*re), rep@, t@),
        !regex_is_match(regex_pattern(*re), t@) ==> r@ == t@,
{
    re.replace_all(t, rep).into_owned()
}

} // verus!
