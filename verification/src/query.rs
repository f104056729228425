//! Search queries and their default parameter values.

use vstd::prelude::*;
use vstd::string::StringExecFns;

verus! {

/// The default file-name filter: every name.
pub fn default_file_pattern() -> (r: String)
    ensures
        r@ == "*"@,
{
    String::from_str("*")
}

/// The default for flags that are on unless asked off.
pub fn default_true() -> (r: bool)
    ensures
        r == true,
{
    true
}

/// The default for flags that are off unless asked on.
pub fn default_false() -> (r: bool)
    ensures
        r == false,
{
    false
}

/// The default number of context lines: none.
pub fn default_zero() -> (r: usize)
    ensures
        r == 0,
{
    0
}

/// The default cap on reported matches.
pub fn default_max_results() -> (r: usize)
    ensures
        r == 100,
{
    100
}

/// The default cap on the size of a searched file: ten mebibytes.
pub fn default_max_file_size() -> (r: u64)
    ensures
        r == 10485760,
{
    10 * 1024 * 1024
}

/// The default search deadline, in seconds.
pub fn default_timeout() -> (r: u64)
    ensures
        r == 30,
{
    30
}

/// Everything a content search is asked to do.
#[derive(Debug, Clone)]
pub struct SearchQuery {
    /// The text or regular expression to look for.
    pub pattern: String,
    /// Treat `pattern` as a regular expression instead of literal text.
    pub is_regex: bool,
    /// Match case exactly.
    pub case_sensitive: bool,
    /// A glob filter on file names.
    pub file_pattern: String,
    /// Descend below the immediate children of the root.
    pub recursive: bool,
    /// Stop collecting once this many matches were reported.
    pub max_results: usize,
    /// Skip files larger than this many bytes.
    pub max_file_size: u64,
    /// How many lines of context to report around each match.
    pub context_lines: usize,
    /// Stop scanning new files after this many milliseconds.
    pub timeout_ms: u64,
}

impl SearchQuery {
    /// The caps a query must respect: a positive result cap and a positive
    /// deadline.
    pub open spec fn wf(&self) -> bool {
        self.max_results > 0 && self.timeout_ms > 0
    }
}

} // verus!
