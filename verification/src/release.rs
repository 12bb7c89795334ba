//! The release record: a version, the heading title it was taken from, and
//! the notes that follow the heading.

use vstd::prelude::*;

use crate::unlink::{full_unlink, spec_full_unlink};

verus! {

/// The mathematical view of a release: its version, title and notes as
/// character sequences.
pub ghost struct SpecRelease {
    pub version: Seq<char>,
    pub title: Seq<char>,
    pub notes: Seq<char>,
}

/// A release note for one version.
#[derive(Debug, Clone)]
pub struct Release {
    /// The version of this release, as extracted from the heading.
    pub version: String,
    /// The title of this release: the heading text, trimmed, links kept.
    pub title: String,
    /// The notes of this release, leading and trailing blank lines removed.
    pub notes: String,
}

impl View for Release {
    type V = SpecRelease;

    open spec fn view(&self) -> SpecRelease {
        SpecRelease { version: self.version@, title: self.title@, notes: self.notes@ }
    }
}

impl Release {
    /// The title of this release with markdown links removed.
    pub fn title_no_link(&self) -> (r: String)
        ensures
            r@ == spec_full_unlink(self.title@),
    {
        full_unlink(self.title.as_str())
    }
}

impl PartialEq for Release {
    fn eq(&self, other: &Release) -> (r: bool) {
        self.version == other.version && self.title == other.title && self.notes == other.notes
    }
}

impl vstd::std_specs::cmp::PartialEqSpecImpl for Release {
    open spec fn obeys_eq_spec() -> bool {
        true
    }

    open spec fn eq_spec(&self, other: &Release) -> bool {
        self.version@ == other.version@ && self.title@ == other.title@ && self.notes@
            == other.notes@
    }
}

} // verus!
