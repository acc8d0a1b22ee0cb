//! Regular expressions over names.
//!
//! Compiling and matching are done by the `regex` crate. What they return
//! is known to the verifier as [`regex_compiles`] and [`regex_is_match`]:
//! functions of the pattern and the text alone.

use vstd::prelude::*;

verus! {

#[verifier::external_type_specification]
#[verifier::external_body]
pub struct ExRegex(regex::Regex);

/// Whether `regex::Regex::new` accepts the pattern.
pub uninterp spec fn regex_compiles(pattern: Seq<char>) -> bool;

/// The pattern that a compiled regular expression was made from.
pub uninterp spec fn regex_source(compiled: regex::Regex) -> Seq<char>;

/// Whether the regular expression made from `pattern` matches anywhere in
/// `text`.
pub uninterp spec fn regex_is_match(pattern: Seq<char>, text: Seq<char>) -> bool;

/// `regex::Regex::new`: the compiled form of `pattern`, or nothing where
/// the pattern is invalid or compiles to more than the default size limit.
#[verifier::external_body]
pub(crate) fn compile(pattern: &str) -> (r: Option<regex::Regex>)
    ensures
        r is Some == regex_compiles(pattern@),
        r matches Some(compiled) ==> regex_source(compiled) == pattern@,
{
    regex::Regex::new(pattern).ok()
}

/// `regex::Regex::is_match`: whether the expression matches anywhere in
/// `text`.
#[verifier::external_body]
pub(crate) fn is_match(compiled: &regex::Regex, text: &str) -> (r: bool)
    ensures
        r == regex_is_match(regex_source(*compiled), text@),
{
    compiled.is_match(text)
}

} // verus!
