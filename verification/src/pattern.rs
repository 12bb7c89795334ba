//! Compiled search patterns for the version and prefix formats.
//!
//! The pattern language is the regex crate's. What a pattern matches is not
//! modelled here: compilation and matching are named, uninterpreted
//! functions of the pattern text and the haystack, and the trusted wrappers
//! below relate the regex crate's calls to those names.

use vstd::prelude::*;

verus! {

#[verifier::external_type_specification]
#[verifier::external_body]
pub struct ExRegex(regex::Regex);

/// Whether `regex::Regex::new` accepts the pattern `pat`.
pub uninterp spec fn regex_compiles(pat: Seq<char>) -> bool;

/// The message of the error that `regex::Regex::new` reports for a pattern
/// it rejects.
pub uninterp spec fn regex_error_text(pat: Seq<char>) -> Seq<char>;

/// The end position, in characters, of the leftmost match of the compiled
/// pattern `pat` in `hay`, as `regex::Regex::find` reports it; `None` when
/// the pattern matches nowhere in `hay`.
pub uninterp spec fn regex_find_end(pat: Seq<char>, hay: Seq<char>) -> Option<int>;

/// Whether the compiled pattern `pat` matches anywhere in `hay`, as
/// `regex::Regex::is_match` reports it.
pub uninterp spec fn regex_is_match(pat: Seq<char>, hay: Seq<char>) -> bool;

/// A compiled pattern, paired with the pattern text it was compiled from.
pub struct Pattern {
    source: String,
    re: regex::Regex,
}

/// The pattern text of the default version format: a semantic-version-shaped
/// string, or the literal `Unreleased`.
pub open spec fn default_version_src() -> Seq<char> {
    "^(0|[1-9][0-9]*)\\.(0|[1-9][0-9]*)\\.(0|[1-9][0-9]*)(-[0-9A-Za-z\\.-]+)?(\\+[0-9A-Za-z\\.-]+)?$|^Unreleased$"@
}

/// The pattern text of the default prefix format: `v`, `Version `,
/// `Release `, or nothing, at the start of the heading text.
pub open spec fn default_prefix_src() -> Seq<char> {
    "^(v|Version |Release )?"@
}

impl Pattern {
    /// The pattern text this pattern was compiled from.
    pub closed spec fn src(&self) -> Seq<char> {
        self.source@
    }

    /// A pattern is well formed when its text compiles; every constructor
    /// below establishes this.
    pub open spec fn wf(&self) -> bool {
        regex_compiles(self.src())
    }

    /// Relies on `regex::Regex::new`: whether a pattern compiles, and the
    /// error it reports otherwise, depend on the pattern text alone.
    #[verifier::external_body]
    pub fn new(format: &str) -> (r: Result<Pattern, String>)
        ensures
            r is Ok <==> regex_compiles(format@),
            r matches Ok(p) ==> p.src() == format@,
            r matches Err(m) ==> m@ == regex_error_text(format@),
    {
        match regex::Regex::new(format) {
            Ok(re) => Ok(Pattern { source: format.to_owned(), re }),
            Err(e) => Err(e.to_string()),
        }
    }

    /// Relies on `regex::Regex::clone` (and `String::clone`): a clone of a
    /// compiled pattern carries the same pattern text and matches the same
    /// strings.
    #[verifier::external_body]
    pub fn duplicate(&self) -> (r: Pattern)
        ensures
            r.src() == self.src(),
    {
        Pattern { source: self.source.clone(), re: self.re.clone() }
    }

    /// Relies on `regex::Regex::find`: it returns the leftmost match, whose
    /// byte offsets lie on character boundaries within the haystack. The
    /// match end is handed back as a character offset into `hay`.
    #[verifier::external_body]
    pub fn find_end(&self, hay: &Vec<char>) -> (r: Option<usize>)
        ensures
            match r {
                Some(e) => regex_find_end(self.src(), hay@) == Some(e as int) && e <= hay@.len(),
                None => regex_find_end(self.src(), hay@) is None,
            },
    {
        let s: String = hay.iter().collect();
        self.re.find(&s).map(|m| s[..m.end()].chars().count())
    }

    /// Relies on `regex::Regex::is_match`: whether the pattern matches
    /// anywhere in the haystack.
    #[verifier::external_body]
    pub fn is_match(&self, hay: &Vec<char>) -> (r: bool)
        ensures
            r == regex_is_match(self.src(), hay@),
    {
        let s: String = hay.iter().collect();
        self.re.is_match(&s)
    }

    /// Relies on `regex::Regex::new`: the default version format is a valid
    /// pattern, so compiling it succeeds.
    #[verifier::external_body]
    fn default_version() -> (r: Pattern)
        ensures
            r.src() == default_version_src(),
            r.wf(),
    {
        let source =
            "^(0|[1-9][0-9]*)\\.(0|[1-9][0-9]*)\\.(0|[1-9][0-9]*)(-[0-9A-Za-z\\.-]+)?(\\+[0-9A-Za-z\\.-]+)?$|^Unreleased$";
        Pattern { source: source.to_owned(), re: regex::Regex::new(source).unwrap() }
    }

    /// Relies on `regex::Regex::new`: the default prefix format is a valid
    /// pattern, so compiling it succeeds.
    #[verifier::external_body]
    fn default_prefix() -> (r: Pattern)
        ensures
            r.src() == default_prefix_src(),
            r.wf(),
    {
        let source = "^(v|Version |Release )?";
        Pattern { source: source.to_owned(), re: regex::Regex::new(source).unwrap() }
    }
}

/// The compiled default version format.
pub fn default_version_pattern() -> (r: Pattern)
    ensures
        r.src() == default_version_src(),
        r.wf(),
{
    Pattern::default_version()
}

/// The compiled default prefix format.
pub fn default_prefix_pattern() -> (r: Pattern)
    ensures
        r.src() == default_prefix_src(),
        r.wf(),
{
    Pattern::default_prefix()
}

} // verus!
