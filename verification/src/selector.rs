//! The boundary to `regex`: compiling a selector and matching names with it.

use vstd::prelude::*;

verus! {

#[verifier::external_type_specification]
#[verifier::external_body]
pub struct ExRegex(regex::Regex);

/// A compiled regular expression, together with the text it was compiled
/// from. A pattern is only ever made by compiling its source, so the two
/// always belong together.
pub struct Pattern {
    source: String,
    regex: regex::Regex,
}

impl View for Pattern {
    type V = Seq<char>;

    /// The text that the pattern was compiled from.
    closed spec fn view(&self) -> Seq<char> {
        self.source@
    }
}

/// Whether `regex` accepts `pattern` as a regular expression.
pub uninterp spec fn regex_compiles(pattern: Seq<char>) -> bool;

/// Whether the regular expression `pattern` has a match anywhere in
/// `haystack`.
pub uninterp spec fn regex_matches(pattern: Seq<char>, haystack: Seq<char>) -> bool;

/// Compiles `pattern` with `regex::Regex::new` and keeps the text beside what
/// comes back. The contract gives the success of the compilation a name,
/// [`regex_compiles`]: whether a text compiles is a matter of the text alone.
#[verifier::external_body]
fn compile(pattern: &str) -> (compiled: Option<Pattern>)
    ensures
        compiled is Some == regex_compiles(pattern@),
        compiled matches Some(p) ==> p@ == pattern@,
{
    regex::Regex::new(pattern).ok().map(|regex| Pattern { source: pattern.to_string(), regex })
}

/// Asks `regex::Regex::is_match` whether `pattern` matches anywhere in
/// `haystack`. The contract gives the answer a name, [`regex_matches`]: it is
/// a matter of the text that was compiled and of the haystack alone.
#[verifier::external_body]
fn is_match(pattern: &Pattern, haystack: &str) -> (found: bool)
    ensures
        found == regex_matches(pattern@, haystack@),
{
    pattern.regex.is_match(haystack)
}

impl Pattern {
    /// Compiles `source`, if it is a regular expression.
    pub fn new(source: &str) -> (compiled: Option<Pattern>)
        ensures
            compiled is Some == regex_compiles(source@),
            compiled matches Some(p) ==> p@ == source@,
    {
        compile(source)
    }

    /// Whether the pattern has a match anywhere in `haystack`.
    pub fn is_match(&self, haystack: &str) -> (found: bool)
        ensures
            found == regex_matches(self@, haystack@),
    {
        is_match(self, haystack)
    }

    /// The text that the pattern was compiled from.
    pub fn as_str(&self) -> (source: &str)
        ensures
            source@ == self@,
    {
        self.source.as_str()
    }
}

} // verus!
