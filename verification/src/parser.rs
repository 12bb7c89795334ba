//! The parser configuration and the whole-document parse: releases are
//! drained from the scan into an ordered, uniquely-keyed mapping, with an
//! error on a duplicate version and on an empty result.

use vstd::prelude::*;
use vstd::string::StringExecFns;

use indexmap::IndexMap;

use crate::chars::{is_blank, range_is_blank, str_to_chars};
use crate::error::Error;
use crate::pattern::{
    default_prefix_pattern, default_prefix_src, default_version_pattern, default_version_src,
    regex_compiles, regex_error_text, Pattern,
};
use crate::release::{Release, SpecRelease};
use crate::scan::{spec_releases, ParseIter};

verus! {

/// A changelog: an ordered mapping from version to release, in document
/// order.
pub type Changelog = IndexMap<String, Release>;

#[verifier::external_type_specification]
#[verifier::external_body]
#[verifier::reject_recursive_types(K)]
#[verifier::reject_recursive_types(V)]
#[verifier::reject_recursive_types(S)]
pub struct ExIndexMap<K, V, S>(IndexMap<K, V, S>);

/// The key-value pairs that a changelog mapping holds, in its insertion
/// order, with each key as its character sequence.
pub uninterp spec fn entries(m: Changelog) -> Seq<(Seq<char>, Release)>;

/// Whether `k` is among the keys of `es`.
pub open spec fn has_key(es: Seq<(Seq<char>, Release)>, k: Seq<char>) -> bool {
    exists|i: int| 0 <= i < es.len() && es[i].0 == k
}

/// Whether the keys of `es` are pairwise distinct.
pub open spec fn distinct_keys(es: Seq<(Seq<char>, Release)>) -> bool {
    forall|i: int, j: int| 0 <= i < j < es.len() ==> es[i].0 != es[j].0
}

/// Relies on `indexmap::IndexMap::new`: a new map is empty.
#[verifier::external_body]
fn changelog_new() -> (m: Changelog)
    ensures
        entries(m) == Seq::<(Seq<char>, Release)>::empty(),
{
    IndexMap::new()
}

/// Relies on `indexmap::IndexMap::insert`: under an equivalent key — for
/// `String` keys, one with the same characters — the key keeps its place,
/// the value is replaced, and the older value is returned; under a new key
/// the pair is appended and `None` is returned.
#[verifier::external_body]
fn changelog_insert(m: &mut Changelog, key: String, value: Release) -> (r: Option<Release>)
    requires
        distinct_keys(entries(*old(m))),
    ensures
        r is Some <==> has_key(entries(*old(m)), key@),
        r is None ==> entries(*final(m)) == entries(*old(m)).push((key@, value)),
        forall|i: int|
            0 <= i < entries(*old(m)).len() && entries(*old(m))[i].0 == key@ ==> r == Some(
                entries(*old(m))[i].1,
            ) && entries(*final(m)) == entries(*old(m)).update(
                i,
                (entries(*old(m))[i].0, value),
            ),
{
    m.insert(key, value)
}

/// Relies on `indexmap::IndexMap::len`: the number of key-value pairs.
#[verifier::external_body]
fn changelog_len(m: &Changelog) -> (n: usize)
    ensures
        n == entries(*m).len(),
{
    m.len()
}

/// Whether `es` lists exactly the releases `rels`, in order, keyed by their
/// versions.
pub open spec fn entries_match(es: Seq<(Seq<char>, Release)>, rels: Seq<SpecRelease>) -> bool {
    &&& es.len() == rels.len()
    &&& forall|i: int| 0 <= i < rels.len() ==> es[i].0 == rels[i].version && es[i].1@ == rels[i]
}

/// Whether the version of the release at position `t` already appeared
/// before it.
pub open spec fn dup_at(rels: Seq<SpecRelease>, t: int) -> bool {
    exists|i: int| 0 <= i < t && rels[i].version == rels[t].version
}

/// The position of the first release whose version already appeared, from
/// position `j` on; the sequence's length when there is none.
pub open spec fn first_dup(rels: Seq<SpecRelease>, j: int) -> int
    decreases rels.len() - j,
{
    if j < 0 || j >= rels.len() {
        rels.len() as int
    } else if dup_at(rels, j) {
        j
    } else {
        first_dup(rels, j + 1)
    }
}

pub proof fn lemma_first_dup_agrees(rels: Seq<SpecRelease>, j: int, k: int)
    requires
        0 <= j <= k <= rels.len(),
        forall|t: int| j <= t < k ==> !dup_at(rels, t),
        k == rels.len() || dup_at(rels, k),
    ensures
        first_dup(rels, j) == k,
    decreases k - j,
{
    if j < k {
        lemma_first_dup_agrees(rels, j + 1, k);
    }
}

/// The message that a duplicate version produces.
pub open spec fn dup_msg(version: Seq<char>) -> Seq<char> {
    "multiple release notes for '"@ + version + "'"@
}

/// The message that a changelog without any release produces.
pub open spec fn no_release_msg() -> Seq<char> {
    "no release note was found"@
}

/// The message that an empty or all-white-space version format produces.
pub open spec fn empty_format_msg() -> Seq<char> {
    "empty or whitespace version format"@
}

/// What `parse` returns for the releases `rels`: the first duplicated
/// version is an error, an empty sequence is an error, and otherwise the
/// mapping lists the releases in order.
pub open spec fn parse_result_matches(
    r: Result<Changelog, Error>,
    rels: Seq<SpecRelease>,
) -> bool {
    let d = first_dup(rels, 0);
    if d < rels.len() {
        &&& r matches Err(e)
        &&& e.is_parse_spec()
        &&& e.msg() == dup_msg(rels[d].version)
    } else if rels.len() == 0 {
        &&& r matches Err(e)
        &&& e.is_parse_spec()
        &&& e.msg() == no_release_msg()
    } else {
        &&& r matches Ok(m)
        &&& entries_match(entries(m), rels)
        &&& distinct_keys(entries(m))
    }
}

/// A changelog parser: an optional version format and an optional prefix
/// format; the defaults stand in where none is set.
pub struct Parser {
    version_format: Option<Pattern>,
    prefix_format: Option<Pattern>,
}

impl Parser {
    /// The pattern text of the effective version format.
    pub closed spec fn vsrc(&self) -> Seq<char> {
        match self.version_format {
            Some(p) => p.src(),
            None => default_version_src(),
        }
    }

    /// The pattern text of the effective prefix format.
    pub closed spec fn psrc(&self) -> Seq<char> {
        match self.prefix_format {
            Some(p) => p.src(),
            None => default_prefix_src(),
        }
    }

    /// Creates a parser with the default version and prefix formats.
    pub fn new() -> (r: Parser)
        ensures
            r.vsrc() == default_version_src(),
            r.psrc() == default_prefix_src(),
    {
        Parser { version_format: None, prefix_format: None }
    }

    /// Sets the version format. An empty or all-white-space pattern and a
    /// pattern that does not compile are rejected; the parser then keeps
    /// its previous format.
    pub fn version_format(&mut self, format: &str) -> (r: Result<(), Error>)
        ensures
            final(self).psrc() == old(self).psrc(),
            ({
                if is_blank(format@) {
                    &&& r matches Err(e)
                    &&& e.is_format_spec()
                    &&& !e.is_parse_spec()
                    &&& e.msg() == empty_format_msg()
                    &&& final(self).vsrc() == old(self).vsrc()
                } else if regex_compiles(format@) {
                    &&& r is Ok
                    &&& final(self).vsrc() == format@
                } else {
                    &&& r matches Err(e)
                    &&& e.is_format_spec()
                    &&& !e.is_parse_spec()
                    &&& e.msg() == regex_error_text(format@)
                    &&& final(self).vsrc() == old(self).vsrc()
                }
            }),
    {
        let chars = str_to_chars(format);
        let n = chars.len();
        proof {
            assert(chars@.subrange(0, chars@.len() as int) =~= chars@);
        }
        if range_is_blank(&chars, 0, n) {
            return Err(Error::format_error(String::from_str("empty or whitespace version format")));
        }
        match Pattern::new(format) {
            Ok(p) => {
                self.version_format = Some(p);
                Ok(())
            },
            Err(m) => Err(Error::regex_error(m)),
        }
    }

    /// Sets the prefix format. A pattern that does not compile is rejected;
    /// the parser then keeps its previous format.
    pub fn prefix_format(&mut self, format: &str) -> (r: Result<(), Error>)
        ensures
            final(self).vsrc() == old(self).vsrc(),
            ({
                if regex_compiles(format@) {
                    &&& r is Ok
                    &&& final(self).psrc() == format@
                } else {
                    &&& r matches Err(e)
                    &&& e.is_format_spec()
                    &&& !e.is_parse_spec()
                    &&& e.msg() == regex_error_text(format@)
                    &&& final(self).psrc() == old(self).psrc()
                }
            }),
    {
        match Pattern::new(format) {
            Ok(p) => {
                self.prefix_format = Some(p);
                Ok(())
            },
            Err(m) => Err(Error::regex_error(m)),
        }
    }

    /// Returns an iterator over the releases of `text` under this parser's
    /// formats.
    pub fn parse_iter(&self, text: &str) -> (it: ParseIter)
        ensures
            it.wf(),
            it.text_view() == text@,
            it.vsrc() == self.vsrc(),
            it.psrc() == self.psrc(),
            it.remaining() == spec_releases(text@, self.vsrc(), self.psrc()),
    {
        let vp = match &self.version_format {
            Some(p) => p.duplicate(),
            None => default_version_pattern(),
        };
        let pp = match &self.prefix_format {
            Some(p) => p.duplicate(),
            None => default_prefix_pattern(),
        };
        ParseIter::begin(text, vp, pp)
    }

    /// Parses the releases of `text` into an ordered mapping keyed by
    /// version. Errors on a duplicate version and on a document without any
    /// release.
    pub fn parse(&self, text: &str) -> (r: Result<Changelog, Error>)
        ensures
            parse_result_matches(r, spec_releases(text@, self.vsrc(), self.psrc())),
    {
        let ghost rels = spec_releases(text@, self.vsrc(), self.psrc());
        let mut it = self.parse_iter(text);
        let mut map = changelog_new();
        let ghost mut k: int = 0;
        proof {
            assert(rels.skip(0) =~= rels);
            assert(rels.take(0).len() == 0);
        }
        loop
            invariant
                0 <= k <= rels.len(),
                it.wf(),
                it.remaining() == rels.skip(k),
                entries_match(entries(map), rels.take(k)),
                distinct_keys(entries(map)),
                rels == spec_releases(text@, self.vsrc(), self.psrc()),
            ensures
                k == rels.len(),
                entries_match(entries(map), rels.take(k)),
                distinct_keys(entries(map)),
            decreases rels.len() - k,
        {
            let ghost es = entries(map);
            let next = it.next();
            match next {
                None => {
                    proof {
                        assert(rels.skip(k).len() == 0);
                        assert(k == rels.len());
                    }
                    break ;
                },
                Some(rel) => {
                    proof {
                        assert(rel@ == rels.skip(k)[0]);
                        assert(rels.skip(k)[0] == rels[k]);
                        assert(rels.skip(k).skip(1) =~= rels.skip(k + 1));
                    }
                    let key = rel.version.clone();
                    let prev = changelog_insert(&mut map, key, rel);
                    match prev {
                        Some(old_rel) => {
                            proof {
                                // The duplicate is at position k: earlier
                                // positions carry pairwise distinct versions.
                                assert(has_key(es, rels[k].version));
                                let i = choose|i: int|
                                    0 <= i < es.len() && es[i].0 == rels[k].version;
                                assert(Some(old_rel) == Some(es[i].1));
                                assert(es[i].1@ == rels.take(k)[i]);
                                assert(rels.take(k)[i] == rels[i]);
                                assert(old_rel@ == rels[i]);
                                assert forall|t: int| 0 <= t < k implies !dup_at(rels, t) by {
                                    assert forall|i2: int|
                                        0 <= i2 < t implies rels[i2].version != rels[t].version by {
                                        assert(es[i2].0 == rels.take(k)[i2].version);
                                        assert(rels.take(k)[i2] == rels[i2]);
                                        assert(es[t].0 == rels.take(k)[t].version);
                                        assert(rels.take(k)[t] == rels[t]);
                                        assert(es[i2].0 != es[t].0);
                                    }
                                }
                                assert(rels.take(k)[i].version == rels[i].version);
                                assert(rels[i].version == rels[k].version);
                                assert(dup_at(rels, k));
                                lemma_first_dup_agrees(rels, 0, k);
                            }
                            let mut m = String::from_str("multiple release notes for '");
                            m.append(old_rel.version.as_str());
                            m.append("'");
                            proof {
                                assert(m@ == dup_msg(rels[first_dup(rels, 0)].version));
                            }
                            return Err(Error::parse_error(m));
                        },
                        None => {
                            proof {
                                assert(entries(map) == es.push((rels[k].version, rel)));
                                assert(rels.take(k + 1) =~= rels.take(k).push(rels[k]));
                                assert forall|i: int|
                                    0 <= i < k + 1 implies entries(map)[i].0 == rels.take(k + 1)[i].version
                                    && entries(map)[i].1@ == rels.take(k + 1)[i] by {
                                    if i < k {
                                        assert(entries(map)[i] == es[i]);
                                    }
                                }
                                assert forall|i: int, j: int|
                                    0 <= i < j < entries(map).len() implies entries(map)[i].0
                                    != entries(map)[j].0 by {
                                    if j < k {
                                        assert(es[i].0 != es[j].0);
                                    } else {
                                        assert(!has_key(es, rels[k].version));
                                        assert(entries(map)[i] == es[i]);
                                    }
                                }
                            }
                            proof {
                                k = k + 1;
                            }
                        },
                    }
                },
            }
        }
        proof {
            assert(rels.take(k) =~= rels);
            assert forall|t: int| 0 <= t < rels.len() implies !dup_at(rels, t) by {
                assert forall|i2: int| 0 <= i2 < t implies rels[i2].version != rels[t].version by {
                    assert(entries(map)[i2].0 == rels[i2].version);
                    assert(entries(map)[t].0 == rels[t].version);
                    assert(entries(map)[i2].0 != entries(map)[t].0);
                }
            }
            lemma_first_dup_agrees(rels, 0, rels.len() as int);
        }
        if changelog_len(&map) == 0 {
            return Err(Error::parse_error(String::from_str("no release note was found")));
        }
        Ok(map)
    }
}

/// Parses release notes from `text` under the default version and prefix
/// formats. Errors on a duplicate version and on a document without any
/// release.
pub fn parse(text: &str) -> (r: Result<Changelog, Error>)
    ensures
        parse_result_matches(r, spec_releases(text@, default_version_src(), default_prefix_src())),
{
    Parser::new().parse(text)
}

/// Returns an iterator over the releases of `text` under the default
/// version and prefix formats. Unlike `parse`, the iterator neither errors
/// on duplicates nor on an empty document.
pub fn parse_iter(text: &str) -> (it: ParseIter)
    ensures
        it.wf(),
        it.text_view() == text@,
        it.remaining() == spec_releases(text@, default_version_src(), default_prefix_src()),
{
    ParseIter::begin(text, default_version_pattern(), default_prefix_pattern())
}

/// Parsing is pure: the releases of a document are a function of the text
/// and the two formats alone, so two parses of the same text under the same
/// configuration agree — the same outcome, the same error, and mappings
/// with the same keys and the same releases.
pub proof fn lemma_parse_deterministic(
    text: Seq<char>,
    vp: Seq<char>,
    pp: Seq<char>,
    r1: Result<Changelog, Error>,
    r2: Result<Changelog, Error>,
)
    requires
        parse_result_matches(r1, spec_releases(text, vp, pp)),
        parse_result_matches(r2, spec_releases(text, vp, pp)),
    ensures
        r1 is Ok <==> r2 is Ok,
        r1 matches Err(e1) ==> r2 matches Err(e2) && e1.msg() == e2.msg() && e1.is_parse_spec()
            == e2.is_parse_spec(),
        r1 matches Ok(m1) ==> r2 matches Ok(m2) && entries(m1).len() == entries(m2).len() && forall|
            i: int,
        |
            0 <= i < entries(m1).len() ==> entries(m1)[i].0 == entries(m2)[i].0 && entries(
                m1,
            )[i].1@ == entries(m2)[i].1@,
{
    let rels = spec_releases(text, vp, pp);
    match (r1, r2) {
        (Ok(m1), Ok(m2)) => {
            assert forall|i: int|
                0 <= i < entries(m1).len() implies entries(m1)[i].0 == entries(m2)[i].0 && entries(
                m1,
            )[i].1@ == entries(m2)[i].1@ by {
                assert(entries(m1)[i].0 == rels[i].version);
                assert(entries(m2)[i].0 == rels[i].version);
                assert(entries(m1)[i].1@ == rels[i]);
                assert(entries(m2)[i].1@ == rels[i]);
            }
        },
        _ => {},
    }
}

/// When no two releases of a document share a version and at least one
/// release exists, the whole-document parse succeeds, and its mapping lists
/// exactly the releases that the iterator yields: the same number, in the
/// same order, keyed by their versions.
pub proof fn lemma_parse_matches_iter(
    text: Seq<char>,
    vp: Seq<char>,
    pp: Seq<char>,
    r: Result<Changelog, Error>,
)
    requires
        parse_result_matches(r, spec_releases(text, vp, pp)),
        forall|i: int, j: int|
            0 <= i < j < spec_releases(text, vp, pp).len() ==> spec_releases(
                text,
                vp,
                pp,
            )[i].version != spec_releases(text, vp, pp)[j].version,
        spec_releases(text, vp, pp).len() > 0,
    ensures
        r matches Ok(m) && entries_match(entries(m), spec_releases(text, vp, pp)),
{
    let rels = spec_releases(text, vp, pp);
    assert forall|t: int| 0 <= t < rels.len() implies !dup_at(rels, t) by {
        assert forall|i: int| 0 <= i < t implies rels[i].version != rels[t].version by {}
    }
    lemma_first_dup_agrees(rels, 0, rels.len() as int);
}

pub proof fn lemma_first_dup_le(rels: Seq<SpecRelease>, j: int, t: int)
    requires
        0 <= j <= t < rels.len(),
        dup_at(rels, t),
    ensures
        first_dup(rels, j) <= t,
    decreases t - j,
{
    if j < t && !dup_at(rels, j) {
        lemma_first_dup_le(rels, j + 1, t);
    }
}

/// A document in which two releases carry one version fails the
/// whole-document parse with a parse error, though the iterator yields both
/// releases.
pub proof fn lemma_duplicate_errs(
    text: Seq<char>,
    vp: Seq<char>,
    pp: Seq<char>,
    r: Result<Changelog, Error>,
    i: int,
    j: int,
)
    requires
        parse_result_matches(r, spec_releases(text, vp, pp)),
        0 <= i < j < spec_releases(text, vp, pp).len(),
        spec_releases(text, vp, pp)[i].version == spec_releases(text, vp, pp)[j].version,
    ensures
        r matches Err(e) && e.is_parse_spec(),
{
    let rels = spec_releases(text, vp, pp);
    assert(dup_at(rels, j));
    lemma_first_dup_le(rels, 0, j);
}

/// A document without any release — one in which no heading yields a
/// version — fails the whole-document parse with a parse error, while the
/// iterator yields an empty sequence.
pub proof fn lemma_empty_errs(text: Seq<char>, vp: Seq<char>, pp: Seq<char>, r: Result<
    Changelog,
    Error,
>)
    requires
        parse_result_matches(r, spec_releases(text, vp, pp)),
        spec_releases(text, vp, pp).len() == 0,
    ensures
        r matches Err(e) && e.is_parse_spec() && e.msg() == no_release_msg(),
{
}

} // verus!
