//! Compiled text patterns.
//!
//! Matching and substitution are delegated to the `regex` crate. A pattern
//! is compiled once; what the crate computes for it is named here, not
//! described: the names are functions of the pattern text and the text
//! searched.

use vstd::prelude::*;

verus! {

/// The error with which the `regex` crate rejects a pattern.
#[verifier::external_type_specification]
#[verifier::external_body]
pub struct ExRegexError(regex::Error);

/// A compiled regular expression of the `regex` crate.
#[verifier::external_type_specification]
#[verifier::external_body]
pub struct ExRegex(regex::Regex);

/// Whether `regex::Regex::new` accepts `pattern`.
pub uninterp spec fn pattern_accepted(pattern: Seq<char>) -> bool;

/// Whether `regex::Regex::is_match` finds `pattern` anywhere in `text`.
pub uninterp spec fn pattern_matches(pattern: Seq<char>, text: Seq<char>) -> bool;

/// What `regex::Regex::replace_all` makes of a `text` in which `pattern`
/// occurs, for a replacement template.
pub uninterp spec fn pattern_replaced(
    pattern: Seq<char>,
    text: Seq<char>,
    replacement: Seq<char>,
) -> Seq<char>;

/// A pattern together with its compiled form.
pub struct Pattern {
    source: String,
    compiled: regex::Regex,
}

impl View for Pattern {
    type V = Seq<char>;

    closed spec fn view(&self) -> Seq<char> {
        self.source@
    }
}

/// Calls `regex::Regex::new` and keeps the regular expression it builds
/// together with the pattern text. It fails exactly on the patterns that
/// `pattern_accepted` excludes.
#[verifier::external_body]
fn compile(source: &str) -> (r: Result<Pattern, regex::Error>)
    ensures
        r is Ok <==> pattern_accepted(source@),
        r matches Ok(p) ==> p@ == source@,
{
    match regex::Regex::new(source) {
        Ok(compiled) => Ok(Pattern { source: source.to_owned(), compiled }),
        Err(error) => Err(error),
    }
}

/// Calls `regex::Regex::is_match`; the answer is the one that
/// `pattern_matches` names for the pattern text.
#[verifier::external_body]
fn is_match(pattern: &Pattern, text: &str) -> (b: bool)
    ensures
        b == pattern_matches(pattern@, text@),
{
    pattern.compiled.is_match(text)
}

/// Calls `regex::Regex::replace_all` with a string template as replacer and
/// takes ownership of the result. Where `is_match` finds no match the text
/// comes back unchanged; otherwise the result is the text that
/// `pattern_replaced` names.
#[verifier::external_body]
fn replace_all(pattern: &Pattern, text: &str, replacement: &str) -> (r: String)
    ensures
        pattern_matches(pattern@, text@) ==> r@ == pattern_replaced(
            pattern@,
            text@,
            replacement@,
        ),
        !pattern_matches(pattern@, text@) ==> r@ == text@,
{
    pattern.compiled.replace_all(text, replacement).into_owned()
}

/// Why a pattern could not be built.
#[derive(Debug, Clone, Copy, PartialEq, Eq, Structural)]
pub enum PatternError {
    /// The pattern text is not a regular expression the engine accepts.
    Rejected,
}

/// `text` with every non-overlapping occurrence of `pattern` replaced by the
/// expansion of `replacement`; `text` itself where the pattern does not
/// occur in it.
pub open spec fn pattern_rewrite(
    pattern: Seq<char>,
    text: Seq<char>,
    replacement: Seq<char>,
) -> Seq<char> {
    if pattern_matches(pattern, text) {
        pattern_replaced(pattern, text, replacement)
    } else {
        text
    }
}

impl Pattern {
    /// Compiles `source`.
    pub fn new(source: &str) -> (r: Result<Pattern, PatternError>)
        ensures
            r is Ok <==> pattern_accepted(source@),
            r matches Ok(p) ==> p@ == source@,
            r matches Err(e) ==> e == PatternError::Rejected,
    {
        match compile(source) {
            Ok(pattern) => Ok(pattern),
            Err(_) => Err(PatternError::Rejected),
        }
    }

    /// The pattern text this value was compiled from.
    pub fn as_str(&self) -> (r: &str)
        ensures
            r@ == self@,
    {
        self.source.as_str()
    }

    /// Whether the pattern occurs anywhere in `text`.
    pub fn is_match(&self, text: &str) -> (b: bool)
        ensures
            b == pattern_matches(self@, text@),
    {
        is_match(self, text)
    }

    /// Replaces every non-overlapping occurrence of the pattern in `text`.
    pub fn replace_all(&self, text: &str, replacement: &str) -> (r: String)
        ensures
            r@ == pattern_rewrite(self@, text@, replacement@),
    {
        replace_all(self, text, replacement)
    }
}

} // verus!
