//! Regular expressions, compiled and matched by the `regex` crate.

use vstd::prelude::*;
use regex::Regex;

verus! {

/// `regex::Regex`, a compiled expression; nothing of its inside is known here.
#[verifier::external_type_specification]
#[verifier::external_body]
pub struct ExRegex(Regex);

/// `regex::Error`, what `Regex::new` returns for a pattern that it refuses.
#[verifier::external_type_specification]
#[verifier::external_body]
pub struct ExRegexError(regex::Error);

/// What `Regex::new` makes of a pattern: the compiled expression, or the
/// error for a pattern that does not compile.
pub uninterp spec fn regex_compiled(pattern: Seq<char>) -> Result<Regex, regex::Error>;

/// Whether a compiled expression finds a match anywhere in `text`, as
/// `Regex::is_match` tells.
pub uninterp spec fn regex_accepts(re: Regex, text: Seq<char>) -> bool;

/// The message that an error of the `regex` crate displays.
pub uninterp spec fn regex_error_text(error: regex::Error) -> Seq<char>;

/// Calls `Regex::new`. What it returns depends on the pattern alone.
#[verifier::external_body]
pub(crate) fn compile(pattern: &str) -> (r: Result<Regex, regex::Error>)
    ensures
        r == regex_compiled(pattern@),
{
    Regex::new(pattern)
}

/// Renders an error of the `regex` crate with `{}`: its message.
#[verifier::external_body]
pub(crate) fn describe(error: &regex::Error) -> (s: String)
    ensures
        s@ == regex_error_text(*error),
{
    format!("{}", error)
}

/// Calls `Regex::is_match`: whether the expression finds a match anywhere in
/// `text`. The answer depends on the expression and the text alone.
#[verifier::external_body]
pub(crate) fn is_match(re: &Regex, text: &str) -> (r: bool)
    ensures
        r == regex_accepts(*re, text@),
{
    re.is_match(text)
}

} // verus!
