//! Compiled route patterns, backed by the `regex` crate.
//!
//! A [`RoutePattern`] pairs a compiled regular expression with the text it
//! was compiled from. Whether a pattern is valid and whether it matches a
//! path are facts about the pattern text alone; both are given names here
//! and every contract of the library speaks through those names.

use vstd::prelude::*;

verus! {

/// Whether `pattern` is a regular expression that `regex::Regex::new`
/// accepts.
pub uninterp spec fn regex_valid(pattern: Seq<char>) -> bool;

/// Whether the regular expression `pattern` matches anywhere in `text`.
pub uninterp spec fn regex_match(pattern: Seq<char>, text: Seq<char>) -> bool;

#[verifier::external_type_specification]
#[verifier::external_body]
pub struct ExRegex(regex::Regex);

/// A compiled route pattern together with its source text. The only way to
/// build one is [`RoutePattern::compile`], so the compiled expression always
/// belongs to the stored text.
pub struct RoutePattern {
    regex: regex::Regex,
    pattern: String,
}

impl RoutePattern {
    /// The text this pattern was compiled from.
    pub closed spec fn spec_pattern(&self) -> Seq<char> {
        self.pattern@
    }

    /// Relies on `regex::Regex::new`: it returns `Ok` exactly on the
    /// patterns that are valid regular expressions.
    #[verifier::external_body]
    pub fn compile(pattern: &String) -> (r: Option<RoutePattern>)
        ensures
            r is Some <==> regex_valid(pattern@),
            r is Some ==> r->0.spec_pattern() == pattern@,
    {
        match regex::Regex::new(pattern.as_str()) {
            Ok(regex) => Some(RoutePattern { regex, pattern: pattern.clone() }),
            Err(_) => None,
        }
    }

    /// Relies on `regex::Regex::is_match`: it returns true if and only if
    /// the compiled expression matches somewhere in `text`. The expression
    /// held here is the one compiled from `self.pattern`.
    #[verifier::external_body]
    pub fn is_match(&self, text: &str) -> (r: bool)
        ensures
            r == regex_match(self.spec_pattern(), text@),
    {
        self.regex.is_match(text)
    }

    /// The stored pattern text.
    pub fn pattern(&self) -> (r: &String)
        ensures
            r@ == self.spec_pattern(),
    {
        &self.pattern
    }
}

} // verus!
