//! Matching a line of text against a regular expression, and what is taken
//! on trust about it.

use vstd::prelude::*;

verus! {

/// What a regular expression captures in a text: `None` where the pattern
/// finds no match in the text, or is not a regular expression that the
/// engine accepts; otherwise one entry per group of the pattern, the whole
/// match first, each holding the text that the group matched, or `None` for
/// a group that took no part in the match.
pub uninterp spec fn captured_groups(pattern: Seq<char>, text: Seq<char>) -> Option<
    Seq<Option<Seq<char>>>,
>;

/// `regex::Regex::new` followed by `Regex::captures`: the groups of the
/// leftmost match of `pattern` in `text`. Nothing is claimed about which
/// texts a pattern matches; the result is only given its name, which rests on
/// the engine answering alike whenever it is asked the same question.
#[verifier::external_body]
pub(crate) fn capture_groups(pattern: &str, text: &str) -> (groups: Option<Vec<Option<String>>>)
    ensures
        groups.deep_view() == captured_groups(pattern@, text@),
{
    match regex::Regex::new(pattern) {
        Ok(regex) => regex.captures(text).map(
            |found| found.iter().map(|group| group.map(|part| part.as_str().to_owned())).collect(),
        ),
        Err(_) => None,
    }
}

} // verus!
