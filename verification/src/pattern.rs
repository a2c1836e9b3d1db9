//! Searching a line of text with a regular expression of the `regex`
//! crate.
//!
//! Verus cannot look inside a compiled expression or follow a search. This
//! module names what compiling and searching give, as functions of the
//! pattern and of the text searched, and the rest of the library is proved
//! for whatever those functions are.

use vstd::prelude::*;

verus! {

/// `regex::Regex`, a compiled regular expression.
#[verifier::external_type_specification]
#[verifier::external_body]
pub struct ExRegex(regex::Regex);

/// `regex::Error`, the reason why a pattern did not compile.
#[verifier::external_type_specification]
#[verifier::external_body]
pub struct ExRegexError(regex::Error);

/// Whether `Regex::new` accepts the pattern.
pub uninterp spec fn regex_compiles(pattern: Seq<char>) -> bool;

/// The pattern that the expression was compiled from, which `Regex::as_str`
/// gives back.
pub uninterp spec fn regex_pattern(re: regex::Regex) -> Seq<char>;

/// What `Regex::captures` finds for the pattern in `text`: `None` where
/// nothing matches, else the text of every group of the leftmost match in
/// the pattern's order, the whole match first, with `None` for a group
/// that took no part in the match.
pub uninterp spec fn regex_captures(pattern: Seq<char>, text: Seq<char>) -> Option<
    Seq<Option<Seq<char>>>,
>;

/// The texts of the groups of a match.
pub type Groups = Vec<Option<String>>;

/// The mathematical value of the groups of a match.
pub open spec fn groups_view(groups: Groups) -> Seq<Option<Seq<char>>> {
    groups@.map_values(
        |g: Option<String>|
            match g {
                Some(s) => Some(s@),
                None => None,
            },
    )
}

/// The mathematical value of the outcome of a search.
pub open spec fn found_view(found: Option<Groups>) -> Option<Seq<Option<Seq<char>>>> {
    match found {
        Some(groups) => Some(groups_view(groups)),
        None => None,
    }
}

/// `Regex::new`: compiles the pattern. Whether it succeeds depends on the
/// pattern alone, and the compiled expression keeps its pattern.
#[verifier::external_body]
pub(crate) fn compile(pattern: &str) -> (r: Result<regex::Regex, regex::Error>)
    ensures
        r.is_ok() == regex_compiles(pattern@),
        r matches Ok(re) ==> regex_pattern(re) == pattern@,
{
    regex::Regex::new(pattern)
}

/// `Regex::captures`: searches `text` for the leftmost match. The groups
/// of the match are handed out as `Captures::iter` yields them, each as
/// the text that `Match::as_str` gives. What is found depends on the
/// pattern and on `text` alone, for an expression that `Regex::new` made
/// of the pattern: [`compile`] is the only maker of one in this library.
#[verifier::external_body]
pub(crate) fn captures(re: &regex::Regex, text: &str) -> (found: Option<Groups>)
    ensures
        found_view(found) == regex_captures(regex_pattern(*re), text@),
{
    let found = re.captures(text);
    found.map(|caps| caps.iter().map(|m| m.map(|m| m.as_str().to_string())).collect())
}

} // verus!
