//! The compiled pattern that environment segments are matched against.

use vstd::prelude::*;

verus! {

#[verifier::external_type_specification]
#[verifier::external_body]
pub struct ExRegex(regex::bytes::Regex);

#[verifier::external_type_specification]
#[verifier::external_body]
pub struct ExRegexError(regex::Error);

/// Whether the regular expression `pattern`, compiled with the given case
/// mode, matches somewhere in `haystack`.
pub uninterp spec fn regex_is_match(
    pattern: Seq<char>,
    case_insensitive: bool,
    haystack: Seq<u8>,
) -> bool;

/// Whether `pattern` is a valid regular expression when compiled with the
/// given case mode.
pub uninterp spec fn regex_compiles(pattern: Seq<char>, case_insensitive: bool) -> bool;

/// A regular expression over bytes together with its case mode, compiled
/// once and then shared read-only by every inspection.
pub struct MatchPattern {
    regex: regex::bytes::Regex,
    source: Ghost<Seq<char>>,
    case_insensitive: bool,
}

/// Why a pattern could not be compiled.
#[derive(Debug)]
pub enum PatternError {
    /// The text is not a valid regular expression; the error says why.
    Invalid(regex::Error),
}

/// Relies on `regex::bytes::RegexBuilder` (`new`, `case_insensitive`,
/// `build`): whether it compiles depends on the pattern text and the case
/// mode alone, and on success the regex is `pattern` compiled with that mode.
#[verifier::external_body]
fn compile(pattern: &str, case_insensitive: bool) -> (r: Result<MatchPattern, regex::Error>)
    ensures
        r is Ok <==> regex_compiles(pattern@, case_insensitive),
        r matches Ok(p) ==> p.pattern() == pattern@ && p.is_case_insensitive()
            == case_insensitive,
{
    let regex = regex::bytes::RegexBuilder::new(pattern).case_insensitive(
        case_insensitive,
    ).build()?;
    Ok(MatchPattern { regex, source: Ghost(pattern@), case_insensitive })
}

/// Relies on `regex::bytes::Regex::is_match`: whether the regex matches
/// anywhere in `haystack`, which depends on the pattern text, the case mode it
/// was compiled with, and the haystack alone.
#[verifier::external_body]
fn regex_match(p: &MatchPattern, haystack: &[u8]) -> (r: bool)
    ensures
        r == regex_is_match(p.pattern(), p.is_case_insensitive(), haystack@),
{
    p.regex.is_match(haystack)
}

impl MatchPattern {
    /// The text of the regular expression.
    pub closed spec fn pattern(&self) -> Seq<char> {
        self.source@
    }

    /// Whether letters match regardless of case.
    pub closed spec fn is_case_insensitive(&self) -> bool {
        self.case_insensitive
    }

    /// Compiles `pattern`, case-insensitively when asked to; fails exactly
    /// when it is not a valid regular expression in that mode.
    pub fn new(pattern: &str, case_insensitive: bool) -> (r: Result<MatchPattern, PatternError>)
        ensures
            r is Ok <==> regex_compiles(pattern@, case_insensitive),
            r matches Ok(p) ==> p.pattern() == pattern@ && p.is_case_insensitive()
                == case_insensitive,
    {
        match compile(pattern, case_insensitive) {
            Ok(p) => Ok(p),
            Err(e) => Err(PatternError::Invalid(e)),
        }
    }

    /// Whether letters match regardless of case.
    pub fn case_insensitive(&self) -> (r: bool)
        ensures
            r == self.is_case_insensitive(),
    {
        self.case_insensitive
    }

    /// Whether the pattern matches somewhere in the raw bytes `segment`.
    pub fn matches(&self, segment: &[u8]) -> (r: bool)
        ensures
            r == regex_is_match(self.pattern(), self.is_case_insensitive(), segment@),
    {
        regex_match(self, segment)
    }
}

} // verus!
