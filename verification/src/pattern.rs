//! Compiled content patterns and file-name filters. The compiled forms come
//! from the `regex` and `glob` crates and stay opaque; every contract is
//! stated over the pattern text they were built from.

use vstd::prelude::*;

verus! {

#[verifier::external_type_specification]
#[verifier::external_body]
pub struct ExRegex(regex::Regex);

#[verifier::external_type_specification]
#[verifier::external_body]
pub struct ExGlobPattern(glob::Pattern);

/// Whether `regex::RegexBuilder` accepts this pattern text under this
/// case-insensitivity flag.
pub uninterp spec fn regex_accepts(pattern: Seq<char>, ci: bool) -> bool;

/// What `regex::Regex::is_match` answers for this pattern text, flag and
/// haystack.
pub uninterp spec fn regex_matches(pattern: Seq<char>, ci: bool, hay: Seq<char>) -> bool;

/// What `regex::escape` returns for this text.
pub uninterp spec fn regex_escaped(s: Seq<char>) -> Seq<char>;

/// Whether `glob::Pattern::new` accepts this pattern text.
pub uninterp spec fn glob_accepts(pattern: Seq<char>) -> bool;

/// What `glob::Pattern::matches` answers for this pattern text and name.
pub uninterp spec fn glob_matches(pattern: Seq<char>, name: Seq<char>) -> bool;

/// Relies on `regex::escape`: the result is a function of the input alone.
#[verifier::external_body]
pub(crate) fn regex_escape(s: &String) -> (r: String)
    ensures
        r@ == regex_escaped(s@),
{
    regex::escape(s.as_str())
}

/// A compiled content pattern, kept together with the text and flag it was
/// compiled from, which the contracts speak of.
pub struct Matcher {
    pub(crate) regex: regex::Regex,
    pub(crate) pattern: String,
    pub(crate) ci: bool,
}

impl Matcher {
    /// Relies on `regex::RegexBuilder`: compilation succeeds or fails as a
    /// function of the pattern text and flag alone, and the compiled value
    /// matches as that pattern.
    #[verifier::external_body]
    pub(crate) fn new(pattern: &String, ci: bool) -> (r: Option<Matcher>)
        ensures
            r is Some <==> regex_accepts(pattern@, ci),
            r matches Some(m) ==> m.pattern@ == pattern@ && m.ci == ci,
    {
        regex::RegexBuilder::new(pattern.as_str()).case_insensitive(ci).build().ok().map(
            |regex| Matcher { regex, pattern: pattern.clone(), ci },
        )
    }

    /// Relies on `regex::Regex::is_match`: whether the pattern matches
    /// anywhere in the haystack, a function of pattern, flag and haystack.
    #[verifier::external_body]
    pub(crate) fn is_match(&self, hay: &String) -> (r: bool)
        ensures
            r == regex_matches(self.pattern@, self.ci, hay@),
    {
        self.regex.is_match(hay.as_str())
    }
}

/// A compiled file-name filter, kept together with its pattern text.
pub struct GlobFilter {
    pub(crate) compiled: glob::Pattern,
    pub(crate) pattern: String,
}

impl GlobFilter {
    /// Relies on `glob::Pattern::new`: compilation succeeds or fails as a
    /// function of the pattern text alone, and the compiled value matches
    /// as that pattern.
    #[verifier::external_body]
    pub(crate) fn new(pattern: &String) -> (r: Option<GlobFilter>)
        ensures
            r is Some <==> glob_accepts(pattern@),
            r matches Some(g) ==> g.pattern@ == pattern@,
    {
        glob::Pattern::new(pattern.as_str()).ok().map(
            |compiled| GlobFilter { compiled, pattern: pattern.clone() },
        )
    }

    /// Relies on `glob::Pattern::matches`: whether the whole name matches
    /// the pattern, a function of pattern and name.
    #[verifier::external_body]
    pub(crate) fn matches_name(&self, name: &String) -> (r: bool)
        ensures
            r == glob_matches(self.pattern@, name@),
    {
        self.compiled.matches(name.as_str())
    }
}

#[verifier::external_type_specification]
#[verifier::external_body]
pub struct ExInstant(std::time::Instant);

/// A wall-clock stopwatch for the search deadline.
pub struct Stopwatch {
    started: std::time::Instant,
}

impl Stopwatch {
    /// Relies on `std::time::Instant::now`. Nothing is promised of the
    /// clock.
    #[verifier::external_body]
    pub(crate) fn start() -> Stopwatch {
        Stopwatch { started: std::time::Instant::now() }
    }

    /// Relies on `std::time::Instant::elapsed`: wall-clock milliseconds
    /// since the stopwatch started, saturated. The value depends on the
    /// clock, so nothing is promised of it.
    #[verifier::external_body]
    pub(crate) fn elapsed_ms(&self) -> u64 {
        let ms = self.started.elapsed().as_millis();
        if ms > u64::MAX as u128 {
            u64::MAX
        } else {
            ms as u64
        }
    }
}

} // verus!
