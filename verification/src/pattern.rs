//! Regular expressions, matched by the `regex` crate.
//!
//! What a pattern matches is not modelled: each search has a name, and the
//! functions that search say that they return what carries that name. The
//! same pattern on the same text always gives the same answer, and what a
//! group of a pattern took is always a stretch of the text.

use vstd::prelude::*;
use crate::text::contains_text;

verus! {

/// What `regex::Regex::captures` finds for group `group` of `pattern`, on
/// the leftmost match in `text`: the part of `text` that the group took, or
/// `None` where nothing matches, the match went without the group, or
/// `pattern` is no regular expression.
pub uninterp spec fn regex_capture(pattern: Seq<char>, text: Seq<char>, group: nat) -> Option<
    Seq<char>,
>;

/// What `regex::Regex::is_match` answers for `pattern` on `text`: whether
/// `pattern` matches somewhere in it. `false` where `pattern` is no regular
/// expression.
pub uninterp spec fn regex_is_match(pattern: Seq<char>, text: Seq<char>) -> bool;

/// An optional string with its characters as a sequence.
pub open spec fn option_view(text: Option<String>) -> Option<Seq<char>> {
    match text {
        Some(s) => Some(s@),
        None => None,
    }
}

/// Compiles `pattern` with `regex::Regex::new`, searches `text` with
/// `Regex::captures` and copies what `Captures::get` gives for `group`. The
/// contract names the result, and says of it what holds of every match:
/// it is a stretch of `text`. A pattern that does not compile gives `None`.
#[verifier::external_body]
pub(crate) fn capture(pattern: &str, text: &str, group: usize) -> (found: Option<String>)
    ensures
        option_view(found) == regex_capture(pattern@, text@, group as nat),
        found matches Some(part) ==> contains_text(text@, part@),
{
    match regex::Regex::new(pattern) {
        Ok(re) => re.captures(text).and_then(|c| c.get(group)).map(|m| m.as_str().to_string()),
        Err(_) => None,
    }
}

/// Compiles `pattern` with `regex::Regex::new` and asks `Regex::is_match`
/// about `text`. The contract only names the result; a pattern that does
/// not compile gives `false`.
#[verifier::external_body]
pub(crate) fn is_match(pattern: &str, text: &str) -> (found: bool)
    ensures
        found == regex_is_match(pattern@, text@),
{
    match regex::Regex::new(pattern) {
        Ok(re) => re.is_match(text),
        Err(_) => false,
    }
}

} // verus!
