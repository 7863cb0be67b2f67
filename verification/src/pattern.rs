//! Pattern matching, done by the `regex` crate.
//!
//! The engine never looks inside a pattern: it compiles one, asks whether a
//! line matches, and asks for the text of the first capture group. What the
//! crate answers is a function of the pattern and the line, and is named
//! here; everything in this module that calls the crate is trusted.

use crate::text::occurs_in;
use vstd::prelude::*;

verus! {

/// `regex::Regex`, a compiled expression. It is carried as an opaque value.
#[verifier::external_type_specification]
#[verifier::external_body]
pub struct ExRegex(regex::Regex);

/// `regex::Error`, the error of a build that failed. It is carried as an
/// opaque value.
#[verifier::external_type_specification]
#[verifier::external_body]
pub struct ExRegexError(regex::Error);

/// What a compiled expression holds: its domain is the set of haystacks in
/// which the expression finds a match, and each such haystack is mapped to
/// the text of the first capture group of the leftmost match, or to `None`
/// where that group is absent or took no part in the match.
pub uninterp spec fn regex_matches(re: regex::Regex) -> Map<Seq<char>, Option<Seq<char>>>;

/// What compiling `pattern` gives, case-insensitively where `fold_case` is
/// set: `None` where the crate refuses the pattern, and otherwise what the
/// compiled expression holds.
pub uninterp spec fn compiled(pattern: Seq<char>, fold_case: bool) -> Option<
    Map<Seq<char>, Option<Seq<char>>>,
>;

/// The crate accepts `pattern`.
pub open spec fn pattern_is_valid(pattern: Seq<char>, fold_case: bool) -> bool {
    compiled(pattern, fold_case) is Some
}

/// The crate accepts `pattern`, and the compiled expression finds a match
/// somewhere in `text`. A pattern that the crate refuses matches nothing.
pub open spec fn pattern_matches(pattern: Seq<char>, fold_case: bool, text: Seq<char>) -> bool {
    compiled(pattern, fold_case) matches Some(held) && held.contains_key(text)
}

/// The text of the first capture group of the leftmost match of `pattern`
/// in `text`, where there is one.
pub open spec fn pattern_first_group(
    pattern: Seq<char>,
    fold_case: bool,
    text: Seq<char>,
) -> Option<Seq<char>> {
    match compiled(pattern, fold_case) {
        Some(held) => if held.contains_key(text) {
            held[text]
        } else {
            None
        },
        None => None,
    }
}

/// The characters that `regex::escape` puts a backslash before.
pub open spec fn is_meta_character(c: char) -> bool {
    c == '\\' || c == '.' || c == '+' || c == '*' || c == '?' || c == '(' || c == ')' || c == '|'
        || c == '[' || c == ']' || c == '{' || c == '}' || c == '^' || c == '$' || c == '#' || c
        == '&' || c == '-' || c == '~'
}

/// `text` with a backslash before each meta character.
pub open spec fn escaped(text: Seq<char>) -> Seq<char>
    decreases text.len(),
{
    if text.len() == 0 {
        Seq::empty()
    } else if is_meta_character(text.last()) {
        escaped(text.drop_last()).push('\\').push(text.last())
    } else {
        escaped(text.drop_last()).push(text.last())
    }
}

/// Trusted: calls `regex::RegexBuilder::new(pattern)`, `case_insensitive`
/// and `build`, with every other option at its default; `regex::Regex::new`
/// is this call with `fold_case` unset. Compiling is a function of the
/// pattern and the flag alone: an error stands for `None` of `compiled`,
/// and an expression holds what `compiled` names.
#[verifier::external_body]
pub(crate) fn build(pattern: &str, fold_case: bool) -> (built: Result<regex::Regex, regex::Error>)
    ensures
        match built {
            Ok(re) => compiled(pattern@, fold_case) == Some(regex_matches(re)),
            Err(_) => compiled(pattern@, fold_case) is None,
        },
{
    regex::RegexBuilder::new(pattern).case_insensitive(fold_case).build()
}

/// Trusted: calls `regex::Regex::is_match`, which is true exactly when the
/// expression finds a match anywhere in the haystack.
#[verifier::external_body]
pub(crate) fn is_match(re: &regex::Regex, text: &str) -> (found: bool)
    ensures
        found == regex_matches(*re).contains_key(text@),
{
    re.is_match(text)
}

/// Trusted: calls `regex::Regex::captures`, then `Captures::get(1)` and
/// `Match::as_str`. `captures` finds the leftmost match, or none; group 1 is
/// `None` where the expression has no such group or the group took no part;
/// what a group matched is a substring of the haystack.
#[verifier::external_body]
pub(crate) fn first_group(re: &regex::Regex, text: &str) -> (group: Option<String>)
    ensures
        group matches Some(found) ==> regex_matches(*re).contains_key(text@),
        group matches Some(found) ==> regex_matches(*re)[text@] == Some(found@),
        group matches Some(found) ==> occurs_in(found@, text@),
        group is None && regex_matches(*re).contains_key(text@) ==> regex_matches(
            *re,
        )[text@] is None,
{
    match re.captures(text) {
        Some(captures) => match captures.get(1) {
            Some(group) => Some(group.as_str().to_string()),
            None => None,
        },
        None => None,
    }
}

/// Trusted: calls `regex::escape`, which copies the text and puts a
/// backslash before each meta character.
#[verifier::external_body]
pub(crate) fn escape(text: &str) -> (quoted: String)
    ensures
        quoted@ == escaped(text@),
{
    regex::escape(text)
}

/// What an error of the crate holds: its description of what is wrong with
/// the pattern, as `to_string` gives it.
pub uninterp spec fn error_message(error: regex::Error) -> Seq<char>;

/// Trusted: calls `to_string` on a `regex::Error`. The description is a
/// function of the error alone; nothing is claimed of its wording.
#[verifier::external_body]
pub(crate) fn error_text(error: &regex::Error) -> (message: String)
    ensures
        message@ == error_message(*error),
{
    error.to_string()
}

/// A pattern that the `regex` crate refused to compile.
#[derive(Clone, Debug, PartialEq, Eq)]
pub struct PatternError {
    /// The crate's description of what is wrong with the pattern.
    pub message: String,
}

impl PatternError {
    /// The error for a build that failed. It carries the crate's
    /// description of the failure.
    pub(crate) fn of(error: &regex::Error) -> (refused: PatternError)
        ensures
            refused.message@ == error_message(*error),
    {
        PatternError { message: error_text(error) }
    }

    /// The crate's description of what is wrong with the pattern.
    pub fn message(&self) -> (message: &str)
        ensures
            message@ == self.message@,
    {
        self.message.as_str()
    }
}

} // verus!
