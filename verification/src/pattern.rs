//! Regular expressions, as the `regex` crate reads and matches them.

use regex::Regex;
use vstd::prelude::*;

verus! {

#[verifier::external_type_specification]
#[verifier::external_body]
pub struct ExRegex(regex::Regex);

#[verifier::external_type_specification]
#[verifier::external_body]
pub struct ExRegexError(regex::Error);

/// Whether `pattern` compiles as a regular expression.
pub uninterp spec fn pattern_compiles(pattern: Seq<char>) -> bool;

/// Whether the regular expression `pattern` matches somewhere in `text`.
pub uninterp spec fn pattern_matches(pattern: Seq<char>, text: Seq<char>) -> bool;

/// A compiled regular expression together with the pattern that it was
/// compiled from. Only `Matcher::compile` makes one.
pub(crate) struct Matcher {
    source: String,
    compiled: Regex,
}

impl Matcher {
    /// The pattern that the matcher was compiled from.
    pub(crate) closed spec fn pattern(&self) -> Seq<char> {
        self.source@
    }

    /// `Regex::new`: the compiled expression, or the compiler's error where
    /// the pattern is invalid or compiles to a program over the size limit.
    /// Which patterns compile is named by `pattern_compiles`.
    #[verifier::external_body]
    pub(crate) fn compile(pattern: &str) -> (r: Result<Matcher, regex::Error>)
        ensures
            r is Ok <==> pattern_compiles(pattern@),
            r is Ok ==> r->Ok_0.pattern() == pattern@,
    {
        match Regex::new(pattern) {
            Ok(compiled) => Ok(Matcher { source: pattern.to_owned(), compiled }),
            Err(e) => Err(e),
        }
    }

    /// `Regex::is_match`: whether the expression matches anywhere in the
    /// text. The answer is named by `pattern_matches`, for the pattern that
    /// the expression was compiled from.
    #[verifier::external_body]
    pub(crate) fn is_match(&self, text: &str) -> (r: bool)
        ensures
            r == pattern_matches(self.pattern(), text@),
    {
        self.compiled.is_match(text)
    }
}

} // verus!
