//! The error type: configuration errors (a pattern that does not compile,
//! or an empty version format) and parse errors (duplicate version, or no
//! release found).

use vstd::prelude::*;

verus! {

#[derive(Debug)]
enum ErrorKind {
    /// The pattern was rejected by the pattern engine; the message is the
    /// engine's.
    Regex(String),
    /// The pattern is a valid pattern but not an accepted format.
    Format(String),
    /// Parsing the changelog failed.
    Parse(String),
}

/// An error from configuring the parser or from parsing a changelog.
#[derive(Debug)]
pub struct Error {
    kind: ErrorKind,
}

impl Error {
    /// Whether this error came from configuring a format.
    pub closed spec fn is_format_spec(&self) -> bool {
        self.kind is Regex || self.kind is Format
    }

    /// Whether this error came from parsing a changelog.
    pub closed spec fn is_parse_spec(&self) -> bool {
        self.kind is Parse
    }

    /// The error's message.
    pub closed spec fn msg(&self) -> Seq<char> {
        match self.kind {
            ErrorKind::Regex(m) => m@,
            ErrorKind::Format(m) => m@,
            ErrorKind::Parse(m) => m@,
        }
    }

    pub(crate) fn regex_error(m: String) -> (r: Error)
        ensures
            r.is_format_spec(),
            !r.is_parse_spec(),
            r.msg() == m@,
    {
        Error { kind: ErrorKind::Regex(m) }
    }

    pub(crate) fn format_error(m: String) -> (r: Error)
        ensures
            r.is_format_spec(),
            !r.is_parse_spec(),
            r.msg() == m@,
    {
        Error { kind: ErrorKind::Format(m) }
    }

    pub(crate) fn parse_error(m: String) -> (r: Error)
        ensures
            r.is_parse_spec(),
            !r.is_format_spec(),
            r.msg() == m@,
    {
        Error { kind: ErrorKind::Parse(m) }
    }

    /// Returns `true` for an error that occurred while configuring the
    /// parser's version or prefix format.
    pub fn is_format(&self) -> (r: bool)
        ensures
            r == self.is_format_spec(),
    {
        match &self.kind {
            ErrorKind::Regex(_) => true,
            ErrorKind::Format(_) => true,
            ErrorKind::Parse(_) => false,
        }
    }

    /// Returns `true` for an error that occurred while parsing a changelog.
    pub fn is_parse(&self) -> (r: bool)
        ensures
            r == self.is_parse_spec(),
    {
        match &self.kind {
            ErrorKind::Regex(_) => false,
            ErrorKind::Format(_) => false,
            ErrorKind::Parse(_) => true,
        }
    }

    /// The error's message.
    pub fn message(&self) -> (r: String)
        ensures
            r@ == self.msg(),
    {
        match &self.kind {
            ErrorKind::Regex(m) => m.clone(),
            ErrorKind::Format(m) => m.clone(),
            ErrorKind::Parse(m) => m.clone(),
        }
    }
}

} // verus!
