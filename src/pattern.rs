use vstd::prelude::*;
use vstd::string::*;
use vstd::utf8::encode_utf8;

use regex::bytes::Regex;

verus! {

#[verifier::external_type_specification]
#[verifier::external_body]
pub struct ExRegex(Regex);

#[verifier::external_type_specification]
#[verifier::external_body]
pub struct ExRegexError(regex::Error);

/// The pattern text a compiled expression was built from.
pub uninterp spec fn regex_source(rx: Regex) -> Seq<char>;

/// Whether a pattern text is accepted by the regular-expression compiler.
pub uninterp spec fn regex_compiles(pattern: Seq<char>) -> bool;

/// Whether the expression of a pattern text matches somewhere in a byte string.
pub uninterp spec fn regex_finds(pattern: Seq<char>, haystack: Seq<u8>) -> bool;

/// Relies on `regex::bytes::Regex::new`: it fails exactly on the patterns it
/// rejects, and the expression it builds keeps its pattern text (`Regex::as_str`).
#[verifier::external_body]
fn compile_regex(pattern: &str) -> (r: Result<Regex, regex::Error>)
    ensures
        r is Ok <==> regex_compiles(pattern@),
        r matches Ok(rx) ==> regex_source(rx) == pattern@,
{
    Regex::new(pattern)
}

/// Relies on `regex::bytes::Regex::is_match`: whether the expression matches
/// anywhere in `haystack`, which depends on the pattern text and the bytes alone.
#[verifier::external_body]
fn regex_is_match(rx: &Regex, haystack: &[u8]) -> (r: bool)
    ensures
        r == regex_finds(regex_source(*rx), haystack@),
{
    rx.is_match(haystack)
}

/// Errors that stop a search before it starts.
#[derive(Debug, Clone, Copy, PartialEq, Eq, Structural)]
pub enum ConfigError {
    /// Fewer than two worker threads were asked for.
    InvalidThreadCount,
    /// The pattern is not a valid regular expression.
    InvalidPattern,
}

impl ConfigError {
    /// A human-readable description of the error.
    pub fn message(&self) -> (r: String)
        ensures
            r@ == match self {
                ConfigError::InvalidThreadCount => "invalid number of threads, '-t' MUST be >= 2"@,
                ConfigError::InvalidPattern => "Failed to compile regex"@,
            },
    {
        match self {
            ConfigError::InvalidThreadCount => String::from_str("invalid number of threads, '-t' MUST be >= 2"),
            ConfigError::InvalidPattern => String::from_str("Failed to compile regex"),
        }
    }
}

/// Tests names and lines against a search pattern, either for equality or as a
/// regular expression over their bytes.
pub struct PatternMatcher {
    exact: bool,
    target: String,
    rx: Option<Regex>,
}

impl PatternMatcher {
    /// Whether the pattern is compared for equality.
    pub closed spec fn is_exact(&self) -> bool {
        self.exact
    }

    /// The pattern text.
    pub closed spec fn pattern(&self) -> Seq<char> {
        self.target@
    }

    /// A regular-expression matcher holds the expression compiled from its pattern.
    pub closed spec fn wf(&self) -> bool {
        !self.exact ==> (self.rx matches Some(rx) && regex_source(rx) == self.target@)
    }

    /// Whether `text` matches: equal to the pattern, or found by its expression
    /// somewhere in the UTF-8 bytes of `text`.
    pub open spec fn accepts(&self, text: Seq<char>) -> bool {
        if self.is_exact() {
            text == self.pattern()
        } else {
            regex_finds(self.pattern(), encode_utf8(text))
        }
    }

    /// Builds a matcher for `target`; a regular expression that does not compile
    /// gives `InvalidPattern`.
    pub fn new(target: &String, exact: bool) -> (r: Result<PatternMatcher, ConfigError>)
        ensures
            r is Ok <==> (exact || regex_compiles(target@)),
            r is Err ==> r == Err::<PatternMatcher, ConfigError>(ConfigError::InvalidPattern),
            r matches Ok(m) ==> m.wf() && m.is_exact() == exact && m.pattern() == target@,
    {
        if exact {
            return Ok(PatternMatcher { exact: true, target: target.clone(), rx: None });
        }
        match compile_regex(target.as_str()) {
            Ok(rx) => Ok(PatternMatcher { exact: false, target: target.clone(), rx: Some(rx) }),
            Err(_) => Err(ConfigError::InvalidPattern),
        }
    }

    /// Whether `text` matches the pattern.
    pub fn is_match(&self, text: &str) -> (r: bool)
        requires
            self.wf(),
        ensures
            r == self.accepts(text@),
    {
        if self.exact {
            let owned = String::from_str(text);
            owned == self.target
        } else {
            match &self.rx {
                Some(rx) => regex_is_match(rx, text.as_bytes()),
                None => false,
            }
        }
    }

    /// The matching lines of a text, numbered from one, in their order; a line
    /// that could not be read (`None`) keeps its number and never matches.
    pub fn grep_lines(&self, lines: &Vec<Option<String>>) -> (r: Vec<(usize, String)>)
        requires
            self.wf(),
            lines@.len() < usize::MAX,
        ensures
            r@ == line_hits(*self, lines@, lines@.len() as int),
    {
        let mut out: Vec<(usize, String)> = Vec::new();
        let mut i: usize = 0;
        while i < lines.len()
            invariant
                self.wf(),
                lines@.len() < usize::MAX,
                i <= lines@.len(),
                out@ == line_hits(*self, lines@, i as int),
            decreases lines@.len() - i,
        {
            match &lines[i] {
                Some(line) => {
                    if self.is_match(line.as_str()) {
                        out.push((i + 1, line.clone()));
                    }
                },
                None => {},
            }
            i = i + 1;
        }
        out
    }
}

/// The matching lines among the first `n` of `lines`, each with its one-based
/// number, in order; unreadable lines (`None`) are counted and never match.
pub open spec fn line_hits(m: PatternMatcher, lines: Seq<Option<String>>, n: int) -> Seq<(usize, String)>
    decreases n,
{
    if n <= 0 {
        seq![]
    } else if lines[n - 1] matches Some(line) && m.accepts(line@) {
        line_hits(m, lines, n - 1).push((n as usize, lines[n - 1]->0))
    } else {
        line_hits(m, lines, n - 1)
    }
}

} // verus!
