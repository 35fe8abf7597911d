//! Small shared helpers for tool input: user-supplied regular expressions
//! and the scratchpad redirect.

use vstd::prelude::*;

use crate::text::{owned, push_str};
use crate::tool::ToolError;

verus! {

#[verifier::external_type_specification]
#[verifier::external_body]
pub struct ExRegex(regex::Regex);

/// Whether the regular expression `pattern` matches somewhere in `haystack`,
/// as `regex::Regex::is_match` decides for a regex compiled from `pattern`.
pub uninterp spec fn regex_is_match(pattern: Seq<char>, haystack: Seq<char>) -> bool;

/// A compiled regular expression together with the pattern it was compiled
/// from. Only `compile_regex` and `compile_regex_with_limits` make one.
#[derive(Debug)]
pub struct LinePattern {
    pattern: String,
    regex: regex::Regex,
}

impl View for LinePattern {
    type V = Seq<char>;

    closed spec fn view(&self) -> Seq<char> {
        self.pattern@
    }
}

/// Trusted: calls `regex::Regex::new`. On success the result keeps the
/// pattern it was compiled from; on failure it holds the error's text.
/// Which patterns fail is not stated: besides syntax, the crate's default
/// size limit decides, and compiled sizes differ between platforms.
#[verifier::external_body]
fn compile_regex(pattern: &str) -> (r: Result<LinePattern, String>)
    ensures
        r matches Ok(p) ==> p@ == pattern@,
{
    match regex::Regex::new(pattern) {
        Ok(regex) => Ok(LinePattern { pattern: pattern.to_string(), regex }),
        Err(error) => Err(error.to_string()),
    }
}

/// Trusted: calls `regex::RegexBuilder::new(pattern)` with `size_limit` and
/// `dfa_size_limit` set, then `build`. On success the result keeps the
/// pattern it was compiled from; on failure it holds the error's text.
/// Which patterns fail is not stated, for the reasons given at
/// `compile_regex`.
#[verifier::external_body]
fn compile_regex_with_limits(pattern: &str, size_limit: usize, dfa_size_limit: usize) -> (r:
    Result<LinePattern, String>)
    ensures
        r matches Ok(p) ==> p@ == pattern@,
{
    match regex::RegexBuilder::new(pattern).size_limit(size_limit).dfa_size_limit(
        dfa_size_limit,
    ).build() {
        Ok(regex) => Ok(LinePattern { pattern: pattern.to_string(), regex }),
        Err(error) => Err(error.to_string()),
    }
}

/// Trusted: calls `regex::Regex::is_match` on the regex compiled from the
/// pattern; its answer depends on the pattern and the haystack alone and is
/// named `regex_is_match`.
#[verifier::external_body]
fn regex_matches(pattern: &LinePattern, haystack: &str) -> (r: bool)
    ensures
        r == regex_is_match(pattern@, haystack@),
{
    pattern.regex.is_match(haystack)
}

impl LinePattern {
    /// Whether the regex matches somewhere in `haystack`.
    pub fn is_match(&self, haystack: &str) -> (r: bool)
        ensures
            r == regex_is_match(self@, haystack@),
    {
        regex_matches(self, haystack)
    }

    /// The pattern the regex was compiled from.
    pub fn pattern(&self) -> (r: &str)
        ensures
            r@ == self@,
    {
        self.pattern.as_str()
    }
}

/// The most memory that compiling a user-supplied regex may take.
pub const PATTERN_SIZE_LIMIT: usize = 1048576;

/// The most memory that a user-supplied regex's lazy DFA may cache.
pub const DFA_SIZE_LIMIT: usize = 1048576;

/// The message for a user-supplied regex that does not compile.
pub open spec fn bad_user_regex_message(pattern: Seq<char>, error: Seq<char>) -> Seq<char> {
    "invalid or oversized regex '"@ + pattern + "': "@ + error
}

/// Compile an LLM-supplied regex pattern with bounded compile memory so a
/// pathological pattern like `a{10_000_000}` cannot exhaust the host's RAM
/// during compilation. The remaining cost of a regex is the one-time cost of
/// building the automaton, which this bounds.
pub fn compile_user_regex(pattern: &str, tool_name: &str) -> (r: Result<LinePattern, ToolError>)
    ensures
        match r {
            Ok(p) => p@ == pattern@,
            Err(e) => e.tool_name@ == tool_name@ && exists|error: Seq<char>|
                e.message@ == bad_user_regex_message(pattern@, error),
        },
{
    match compile_regex_with_limits(pattern, PATTERN_SIZE_LIMIT, DFA_SIZE_LIMIT) {
        Ok(p) => Ok(p),
        Err(error) => {
            let mut message = owned("invalid or oversized regex '");
            push_str(&mut message, pattern);
            push_str(&mut message, "': ");
            push_str(&mut message, error.as_str());
            assert(message@ == bad_user_regex_message(pattern@, error@));
            Err(ToolError { tool_name: owned(tool_name), message })
        },
    }
}

/// The message for a regex that does not compile.
pub open spec fn bad_regex_message(pattern: Seq<char>, error: Seq<char>) -> Seq<char> {
    "invalid regex '"@ + pattern + "': "@ + error
}

/// Compiles a regex with the crate's default limits.
pub fn compile_search_regex(pattern: &str, tool_name: &str) -> (r: Result<LinePattern, ToolError>)
    ensures
        match r {
            Ok(p) => p@ == pattern@,
            Err(e) => e.tool_name@ == tool_name@ && exists|error: Seq<char>|
                e.message@ == bad_regex_message(pattern@, error),
        },
{
    match compile_regex(pattern) {
        Ok(p) => Ok(p),
        Err(error) => {
            let mut message = owned("invalid regex '");
            push_str(&mut message, pattern);
            push_str(&mut message, "': ");
            push_str(&mut message, error.as_str());
            assert(message@ == bad_regex_message(pattern@, error@));
            Err(ToolError { tool_name: owned(tool_name), message })
        },
    }
}

/// Whether the caller is redirecting this tool's output into the scratchpad
/// via the `scratchpad` parameter (its string value, when it is a string).
/// Tools that internally cap result counts or output length should lift
/// those caps when this returns true, because the scratchpad is an overflow
/// buffer and truncation defeats its purpose.
pub fn redirects_to_scratchpad(scratchpad: Option<&str>) -> (r: bool)
    ensures
        r == (scratchpad matches Some(name) && name@.len() > 0),
{
    match scratchpad {
        Some(name) => !name.is_empty(),
        None => false,
    }
}

} // verus!
