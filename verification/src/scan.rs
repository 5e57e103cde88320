//! The one place where the regular expression engine is called.
//!
//! Nothing in this file is proved. What the engine finds is given a name,
//! `regex_captures`, and the rest of the library is verified for whatever
//! that name stands for.

use vstd::prelude::*;

verus! {

/// The capture groups of one match: entry 0 is the whole match, entry `i`
/// the text of group `i`, absent where the group took no part in the match.
pub type Groups = Vec<Option<String>>;

/// `Groups` as plain sequences.
pub type GroupsModel = Seq<Option<Seq<char>>>;

/// The error of `regex::Regex::new`. Verified code only passes it on.
#[verifier::external_type_specification]
#[verifier::external_body]
pub struct ExRegexError(regex::Error);

/// What the `regex` crate finds for a pattern in a haystack: `None` where
/// `Regex::new` rejects the pattern, else the matches that
/// `Regex::captures_iter` yields, in its order, each with the text of every
/// capture group as `Captures::iter` gives them.
pub uninterp spec fn regex_captures(pattern: Seq<char>, haystack: Seq<char>) -> Option<
    Seq<GroupsModel>,
>;

/// The text of a group, where there is one.
pub open spec fn group_view(group: Option<String>) -> Option<Seq<char>> {
    match group {
        Some(text) => Some(text@),
        None => None,
    }
}

/// The groups of one match as sequences of characters.
pub open spec fn groups_view(groups: Groups) -> GroupsModel {
    Seq::new(groups@.len(), |j: int| group_view(groups@[j]))
}

/// A list of matches as sequences.
pub open spec fn captures_view(found: Vec<Groups>) -> Seq<GroupsModel> {
    Seq::new(found@.len(), |i: int| groups_view(found@[i]))
}

/// Compiles `pattern` with `regex::Regex::new` and collects what
/// `Regex::captures_iter` yields on `haystack`, copying out of each
/// `Captures` the text of every group (`Captures::iter`, `Match::as_str`).
///
/// Trusted: the contract only says that the outcome is the one named
/// `regex_captures` for these two strings, that is, that the engine is a
/// function of the pattern and the haystack. It claims nothing about which
/// patterns compile or what is matched.
#[verifier::external_body]
pub(crate) fn capture_all(pattern: &str, haystack: &str) -> (found: Result<
    Vec<Groups>,
    regex::Error,
>)
    ensures
        match found {
            Ok(list) => regex_captures(pattern@, haystack@) == Some(captures_view(list)),
            Err(_) => regex_captures(pattern@, haystack@) is None,
        },
{
    let re = regex::Regex::new(pattern)?;
    Ok(
        re.captures_iter(haystack).map(
            |caps| caps.iter().map(|group| group.map(|m| m.as_str().to_string())).collect(),
        ).collect(),
    )
}

} // verus!
