//! The compiled search pattern, and the boundary to the `regex` crate.

use crate::failure::Failure;
use regex::Regex;
use vstd::prelude::*;

verus! {

#[verifier::external_type_specification]
#[verifier::external_body]
pub struct ExRegex(regex::Regex);

#[verifier::external_type_specification]
#[verifier::external_body]
pub struct ExRegexError(regex::Error);

/// Whether `Regex::new` accepts `text` as a regular expression.
pub uninterp spec fn regex_accepts(text: Seq<char>) -> bool;

/// The expression text that a compiled regex was built from, as
/// `Regex::as_str` reports it.
pub uninterp spec fn regex_text(re: Regex) -> Seq<char>;

/// Whether `Regex::is_match` finds a match of `re` anywhere in `haystack`.
pub uninterp spec fn regex_finds(re: Regex, haystack: Seq<char>) -> bool;

/// `Regex::new`: compiles `text`. Whether it succeeds depends on `text`
/// alone; a compiled regex remembers the text it was built from; and the
/// empty expression is valid.
#[verifier::external_body]
fn regex_new(text: &str) -> (r: Result<Regex, regex::Error>)
    ensures
        r is Ok <==> regex_accepts(text@),
        r matches Ok(re) ==> regex_text(re) == text@,
        text@.len() == 0 ==> r is Ok,
{
    Regex::new(text)
}

/// `Regex::is_match`: whether the regex matches anywhere in `haystack`. The
/// answer depends on the regex and the haystack alone, and the empty
/// expression matches in every haystack.
#[verifier::external_body]
fn regex_is_match(re: &Regex, haystack: &str) -> (found: bool)
    ensures
        found == regex_finds(*re, haystack@),
        regex_text(*re).len() == 0 ==> found,
{
    re.is_match(haystack)
}

/// `Regex::as_str`: the text the regex was built from.
#[verifier::external_body]
fn regex_as_str(re: &Regex) -> (text: &str)
    ensures
        text@ == regex_text(*re),
{
    re.as_str()
}

/// The `Display` text of a `regex::Error`, through `to_string`. Nothing is
/// claimed of what it says.
#[verifier::external_body]
fn regex_error_text(error: &regex::Error) -> String {
    error.to_string()
}

/// A compiled regular expression. It is built once and never changes; its
/// view is the expression text it was compiled from.
pub struct Pattern {
    re: Regex,
}

impl View for Pattern {
    type V = Seq<char>;

    closed spec fn view(&self) -> Seq<char> {
        regex_text(self.re)
    }
}

impl Pattern {
    /// Whether the pattern matches somewhere within `line`: what the regex
    /// engine answers for this pattern and this text.
    pub closed spec fn matches(&self, line: Seq<char>) -> bool {
        regex_finds(self.re, line)
    }

    /// Compiles `text`. It fails exactly on the expressions that the regex
    /// engine refuses, with the engine's message; no pattern is built from
    /// those. The empty expression always compiles.
    pub fn new(text: &str) -> (r: Result<Pattern, Failure>)
        ensures
            r is Ok <==> regex_accepts(text@),
            r matches Ok(pattern) ==> pattern@ == text@,
            r matches Err(failure) ==> failure is InvalidPattern,
            text@.len() == 0 ==> r is Ok,
    {
        match regex_new(text) {
            Ok(re) => Ok(Pattern { re }),
            Err(error) => Err(Failure::InvalidPattern { message: regex_error_text(&error) }),
        }
    }

    /// Tests whether the pattern matches anywhere within `line`. The empty
    /// pattern matches every line.
    pub fn is_match(&self, line: &str) -> (found: bool)
        ensures
            found == self.matches(line@),
            self@.len() == 0 ==> found,
    {
        regex_is_match(&self.re, line)
    }

    /// The expression text the pattern was compiled from.
    pub fn as_str(&self) -> (text: &str)
        ensures
            text@ == self@,
    {
        regex_as_str(&self.re)
    }
}

} // verus!
