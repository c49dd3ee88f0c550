//! Regular expressions over listing lines, compiled once and matched many times.

use vstd::prelude::*;

verus! {

#[verifier::external_type_specification]
#[verifier::external_body]
pub struct ExRegex(regex::Regex);

#[verifier::external_type_specification]
#[verifier::external_body]
pub struct ExRegexError(regex::Error);

/// Whether the regex crate accepts `pattern`.
pub uninterp spec fn regex_compiles(pattern: Seq<char>) -> bool;

/// The text of capture group `group` in the leftmost match of `pattern` in `hay`,
/// or `None` when there is no match or the group does not take part in it.
pub uninterp spec fn regex_group(pattern: Seq<char>, hay: Seq<char>, group: nat) -> Option<
    Seq<char>,
>;

/// Relies on regex::Regex::new: it returns a compiled regex exactly when the
/// pattern is accepted.
#[verifier::external_body]
fn regex_new(pattern: &str) -> (r: Result<regex::Regex, regex::Error>)
    ensures
        r is Ok <==> regex_compiles(pattern@),
{
    regex::Regex::new(pattern)
}

/// A compiled regular expression together with the pattern it was compiled from.
pub struct LinePattern {
    re: regex::Regex,
    source: Ghost<Seq<char>>,
}

/// Relies on regex::Regex::captures and Captures::get: the text of group `group`
/// of the leftmost match, when there is one and the group takes part in it.
#[verifier::external_body]
fn regex_capture(p: &LinePattern, hay: &str, group: usize) -> (r: Option<String>)
    ensures
        r is Some <==> regex_group(p.pattern(), hay@, group as nat) is Some,
        r matches Some(t) ==> t@ == regex_group(p.pattern(), hay@, group as nat)->Some_0,
{
    match p.re.captures(hay) {
        Some(caps) => match caps.get(group) {
            Some(m) => Some(m.as_str().to_string()),
            None => None,
        },
        None => None,
    }
}

/// The pattern could not be compiled.
#[derive(Debug, Clone, Copy, PartialEq, Eq, Structural)]
pub enum PatternError {
    Rejected,
}

impl LinePattern {
    /// The pattern this regular expression was compiled from.
    pub closed spec fn pattern(&self) -> Seq<char> {
        self.source@
    }

    /// Compiles `pattern`.
    pub fn compile(pattern: &str) -> (r: Result<LinePattern, PatternError>)
        ensures
            r is Ok <==> regex_compiles(pattern@),
            r matches Ok(p) ==> p.pattern() == pattern@,
    {
        match regex_new(pattern) {
            Ok(re) => Ok(LinePattern { re, source: Ghost(pattern@) }),
            Err(_) => Err(PatternError::Rejected),
        }
    }

    /// Whether the pattern matches somewhere in `hay`.
    pub fn is_match(&self, hay: &str) -> (r: bool)
        ensures
            r == matches_line(self.pattern(), hay@),
    {
        regex_capture(self, hay, 0).is_some()
    }

    /// The text of capture group `group` of the leftmost match in `hay`.
    pub fn group(&self, hay: &str, group: usize) -> (r: Option<String>)
        ensures
            r is Some <==> regex_group(self.pattern(), hay@, group as nat) is Some,
            r matches Some(t) ==> t@ == regex_group(self.pattern(), hay@, group as nat)->Some_0,
    {
        regex_capture(self, hay, group)
    }
}

/// `pattern` matches somewhere in `hay`.
pub open spec fn matches_line(pattern: Seq<char>, hay: Seq<char>) -> bool {
    regex_group(pattern, hay, 0) is Some
}

} // verus!
