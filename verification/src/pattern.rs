//! Regular expressions, by the `regex` and `regex-lite` crates.
use vstd::prelude::*;

verus! {

/// Whether `regex::Regex::new` accepts `pattern`.
pub uninterp spec fn regex_accepts(pattern: Seq<char>) -> bool;

/// Whether the regex compiled from `pattern` matches somewhere in `text`
/// (`regex::Regex::is_match`).
pub uninterp spec fn regex_finds(pattern: Seq<char>, text: Seq<char>) -> bool;

/// The text of the error of `regex::Regex::new` for `pattern`.
pub uninterp spec fn regex_error(pattern: Seq<char>) -> Seq<char>;

/// Compiles `pattern` with `regex::Regex::new`: `Ok` when the crate accepts
/// it, else the error's text (its `Display`).
#[verifier::external_body]
pub(crate) fn regex_check(pattern: &str) -> (r: Result<(), String>)
    ensures
        r is Ok == regex_accepts(pattern@),
        r matches Err(t) ==> t@ == regex_error(pattern@),
{
    match regex::Regex::new(pattern) {
        Ok(_) => Ok(()),
        Err(e) => Err(e.to_string()),
    }
}

/// `regex::Regex::is_match` of the regex compiled from `pattern` on `text`.
#[verifier::external_body]
pub(crate) fn regex_is_match(pattern: &str, text: &str) -> (r: bool)
    requires
        regex_accepts(pattern@),
    ensures
        r == regex_finds(pattern@, text@),
{
    match regex::Regex::new(pattern) {
        Ok(re) => re.is_match(text),
        Err(_) => false,
    }
}

/// Whether `regex_lite::Regex::new` accepts `pattern`.
pub uninterp spec fn lite_accepts(pattern: Seq<char>) -> bool;

/// Whether the `regex_lite` regex compiled from `pattern` matches somewhere
/// in `text` (`regex_lite::Regex::is_match`).
pub uninterp spec fn lite_finds(pattern: Seq<char>, text: Seq<char>) -> bool;

/// The text of the error of `regex_lite::Regex::new` for `pattern`.
pub uninterp spec fn lite_error(pattern: Seq<char>) -> Seq<char>;

/// Compiles `pattern` with `regex_lite::Regex::new`: `Ok` when the crate
/// accepts it, else the error's text (its `Display`).
#[verifier::external_body]
pub(crate) fn lite_check(pattern: &str) -> (r: Result<(), String>)
    ensures
        r is Ok == lite_accepts(pattern@),
        r matches Err(t) ==> t@ == lite_error(pattern@),
{
    match regex_lite::Regex::new(pattern) {
        Ok(_) => Ok(()),
        Err(e) => Err(e.to_string()),
    }
}

/// `regex_lite::Regex::is_match` of the regex compiled from `pattern` on
/// `text`.
#[verifier::external_body]
pub(crate) fn lite_is_match(pattern: &str, text: &str) -> (r: bool)
    requires
        lite_accepts(pattern@),
    ensures
        r == lite_finds(pattern@, text@),
{
    match regex_lite::Regex::new(pattern) {
        Ok(re) => re.is_match(text),
        Err(_) => false,
    }
}

} // verus!
