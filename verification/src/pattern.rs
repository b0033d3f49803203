//! Searching and rewriting text with regular expressions.
//!
//! The expressions are those of the `regex` crate, and nothing here says
//! what they match: the two functions below hand the work to that crate, and
//! the contracts give its answers a name.

use regex::Regex;
use vstd::prelude::*;

verus! {

/// The capture groups of the leftmost match of `pattern` in `text`: group 0,
/// the whole match, first, and `None` for a group that took no part in the
/// match. `None` where `pattern` matches nowhere in `text`, and where
/// `pattern` is no regular expression that the `regex` crate accepts.
pub uninterp spec fn regex_captures(pattern: Seq<char>, text: Seq<char>) -> Option<
    Seq<Option<Seq<char>>>,
>;

/// `text` with each match of `pattern` replaced by the expansion of
/// `replacement`, in which `$name` stands for what the group of that name
/// matched. `None` where `pattern` is no regular expression that the `regex`
/// crate accepts.
pub uninterp spec fn regex_replace_all(
    pattern: Seq<char>,
    text: Seq<char>,
    replacement: Seq<char>,
) -> Option<Seq<char>>;

/// The groups of a match as the contracts speak of them.
pub open spec fn group_texts(groups: Seq<Option<String>>) -> Seq<Option<Seq<char>>> {
    Seq::new(
        groups.len(),
        |i: int|
            match groups[i] {
                Some(text) => Some(text@),
                None => None,
            },
    )
}

/// What a search found as the contracts speak of it.
pub open spec fn found_texts(found: Option<Vec<Option<String>>>) -> Option<Seq<Option<Seq<char>>>> {
    match found {
        Some(groups) => Some(group_texts(groups@)),
        None => None,
    }
}

/// What a rewriting gave as the contracts speak of it.
pub open spec fn rewritten_text(rewritten: Option<String>) -> Option<Seq<char>> {
    match rewritten {
        Some(text) => Some(text@),
        None => None,
    }
}

/// Compiles `pattern` with `regex::Regex::new` and takes the first item of
/// `Regex::captures_iter` on `text`, each group as the text it matched.
/// The contract only gives the answer its name, `regex_captures`.
#[verifier::external_body]
pub(crate) fn captures(pattern: &str, text: &str) -> (found: Option<Vec<Option<String>>>)
    ensures
        found_texts(found) == regex_captures(pattern@, text@),
{
    match Regex::new(pattern) {
        Ok(re) => re.captures_iter(text).next().map(
            |groups| groups.iter().map(|group| group.map(|m| m.as_str().to_string())).collect(),
        ),
        Err(_) => None,
    }
}

/// Compiles `pattern` with `regex::Regex::new` and calls
/// `Regex::replace_all` on `text` with `replacement`. The contract only
/// gives the answer its name, `regex_replace_all`.
#[verifier::external_body]
pub(crate) fn replace_all(pattern: &str, text: &str, replacement: &str) -> (rewritten: Option<
    String,
>)
    ensures
        rewritten_text(rewritten) == regex_replace_all(pattern@, text@, replacement@),
{
    match Regex::new(pattern) {
        Ok(re) => Some(re.replace_all(text, replacement).into_owned()),
        Err(_) => None,
    }
}

} // verus!
