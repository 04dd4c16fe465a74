//! Compiled regular expressions.  Tag rules carry user-authored patterns;
//! compiling and matching them is delegated to the regex crate, and each
//! compiled matcher is kept together with the pattern it was compiled from,
//! so that contracts can speak of the pattern alone.

use vstd::prelude::*;

verus! {

/// The regex crate's compiled-pattern type, declared so that a matcher can
/// stand in a field.
#[verifier::external_type_specification]
#[verifier::external_body]
pub struct ExRegex(regex::Regex);

/// The regex crate's compilation-error type.
#[verifier::external_type_specification]
#[verifier::external_body]
pub struct ExRegexError(regex::Error);

/// Whether the regex crate accepts `pattern` as a valid pattern within its
/// default size limit: the condition under which compilation returns `Ok`.
pub uninterp spec fn regex_valid(pattern: Seq<char>) -> bool;

/// Whether the matcher compiled from `pattern`, with dot matching newline,
/// finds a match anywhere in `text`.  A function of the pattern and the text
/// alone.
pub uninterp spec fn regex_match(pattern: Seq<char>, text: Seq<char>) -> bool;

/// A compiled matcher paired with the pattern it was compiled from.  All
/// matchers are compiled with dot-matches-newline semantics, so multi-line
/// rules text can be crossed with `.`; matching is a case-sensitive search
/// anywhere in the text.
pub struct CompiledRegex {
    pattern: String,
    matcher: regex::Regex,
}

impl CompiledRegex {
    /// The characters of the pattern this matcher was compiled from.
    pub closed spec fn pattern_view(&self) -> Seq<char> {
        self.pattern@
    }

    /// Relies on regex::RegexBuilder: `new` followed by
    /// `dot_matches_new_line(true)` and `build` compiles the pattern
    /// deterministically, and `build` returns `Ok` exactly when the pattern
    /// is a valid regular expression within the configured size limit.
    #[verifier::external_body]
    pub fn compile(pattern: &str) -> (r: Result<CompiledRegex, regex::Error>)
        ensures
            r is Ok ==> regex_valid(pattern@) && r->Ok_0.pattern_view() == pattern@,
            r is Err ==> !regex_valid(pattern@),
    {
        let mut builder = regex::RegexBuilder::new(pattern);
        builder.dot_matches_new_line(true);
        match builder.build() {
            Ok(matcher) => Ok(CompiledRegex { pattern: pattern.to_string(), matcher }),
            Err(e) => Err(e),
        }
    }

    /// Relies on regex::Regex::is_match: whether a match occurs anywhere in
    /// the haystack, a function of the compiled pattern and the haystack
    /// alone.
    #[verifier::external_body]
    pub fn is_match(&self, text: &str) -> (r: bool)
        ensures
            r == regex_match(self.pattern_view(), text@),
    {
        self.matcher.is_match(text)
    }

    /// The pattern this matcher was compiled from.
    pub fn pattern(&self) -> (r: &str)
        ensures
            r@ == self.pattern_view(),
    {
        self.pattern.as_str()
    }
}

} // verus!
