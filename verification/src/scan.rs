//! The scan over a changelog document: the line-by-line state machine that
//! recognises release headings, tracks code-fence and comment state, locks
//! the release heading level, and delimits each release's notes.

use vstd::prelude::*;

use crate::chars::{
    chars_to_string, find_line_end, find_sub_from, is_blank, lemma_find_sub_from,
    lemma_leading_spaces, lemma_line_end, line_end, range_find_sub, range_is_blank,
    range_leading_spaces_capped, range_trim_back, str_to_chars, subvec, trim_back,
};
use crate::extract::{extract_range, spec_extract};
use crate::heading::{heading_at, spec_heading, trim_start3, HeadingHit, SpecHeading};
use crate::pattern::{regex_is_match, Pattern};
use crate::release::{Release, SpecRelease};

verus! {

/// The marker that opens an HTML comment.
pub open spec fn open_marker() -> Seq<char> {
    seq!['<', '!', '-', '-']
}

/// The marker that closes an HTML comment.
pub open spec fn close_marker() -> Seq<char> {
    seq!['-', '-', '>']
}

/// Whether a line toggles the code-block state: after at most three leading
/// spaces it starts with three backticks.
pub open spec fn is_fence(line: Seq<char>) -> bool {
    let t = trim_start3(line);
    t.len() >= 3 && t[0] == '`' && t[1] == '`' && t[2] == '`'
}

/// The comment state after scanning `line` left to right, starting in state
/// `c`: whichever of the open and close markers occurs first flips the
/// state, and the scan continues after that marker.
pub open spec fn comment_after(line: Seq<char>, c: bool) -> bool
    decreases line.len(),
    via comment_after_decreases
{
    let o = find_sub_from(line, open_marker(), 0);
    let cl = find_sub_from(line, close_marker(), 0);
    match (o, cl) {
        (None, None) => c,
        (Some(_), None) => true,
        (None, Some(_)) => false,
        (Some(i), Some(j)) => if i < j {
            comment_after(line.skip(j + 3), false)
        } else {
            comment_after(line.skip(i + 4), true)
        },
    }
}

#[via_fn]
proof fn comment_after_decreases(line: Seq<char>, c: bool) {
    lemma_find_sub_from(line, open_marker(), 0);
    lemma_find_sub_from(line, close_marker(), 0);
}

/// The first line start at or after `pos` whose line is not all white
/// space; one past the end of the text when every remaining line is blank.
pub open spec fn skip_blanks(text: Seq<char>, pos: int) -> int
    decreases text.len() - pos + 1,
    via skip_blanks_decreases
{
    if pos < 0 || pos > text.len() {
        pos
    } else {
        let le = line_end(text, pos);
        if is_blank(text.subrange(pos, le)) {
            skip_blanks(text, le + 1)
        } else {
            pos
        }
    }
}

#[via_fn]
proof fn skip_blanks_decreases(text: Seq<char>, pos: int) {
    if 0 <= pos <= text.len() {
        lemma_line_end(text, pos);
    }
}

pub proof fn lemma_skip_blanks(text: Seq<char>, pos: int)
    requires
        0 <= pos <= text.len() + 1,
    ensures
        skip_blanks(text, pos) >= pos,
        skip_blanks(text, pos) <= text.len() + 1,
    decreases text.len() - pos + 1,
{
    if pos <= text.len() {
        lemma_line_end(text, pos);
        let le = line_end(text, pos);
        if is_blank(text.subrange(pos, le)) {
            lemma_skip_blanks(text, le + 1);
        }
    }
}

/// An open release during the scan: its version, its title, and the
/// position where its notes begin.
pub ghost struct SpecOpen {
    pub version: Seq<char>,
    pub title: Seq<char>,
    pub note_start: int,
}

/// The release that an open release becomes when a heading at line start
/// `ls` ends it: its notes run from `note_start` to just before the line
/// terminator preceding `ls`, trailing white space trimmed.
pub open spec fn close_at(text: Seq<char>, o: SpecOpen, ls: int) -> SpecRelease {
    SpecRelease {
        version: o.version,
        title: o.title,
        notes: if o.note_start < ls {
            trim_back(text.subrange(o.note_start, ls - 1))
        } else {
            Seq::<char>::empty()
        },
    }
}

/// The release that an open release becomes at the end of the text: its
/// notes run to the end, trailing white space trimmed.
pub open spec fn close_eof(text: Seq<char>, o: SpecOpen) -> SpecRelease {
    SpecRelease {
        version: o.version,
        title: o.title,
        notes: trim_back(text.subrange(o.note_start, text.len() as int)),
    }
}

/// The releases that the scan yields from line start `pos` onward, given
/// the version format `vp`, the prefix format `pp`, the code-block and
/// comment states, the locked heading level, and the currently open
/// release.
///
/// Per line: inside a code block or comment, or when the line is no
/// heading, the line is content — it toggles the code-block state at a
/// fence, updates the comment state otherwise, and extends the open
/// release. A heading above the locked level is content. A heading below
/// the locked level ends the open release and is itself dropped. A heading
/// at the locked level ends the open release and is examined anew. A
/// heading examined with no release open opens one when its extracted
/// version token matches `vp`; the notes begin at the first non-blank line
/// after the heading.
pub open spec fn spec_scan(
    text: Seq<char>,
    vp: Seq<char>,
    pp: Seq<char>,
    pos: int,
    in_code: bool,
    in_comment: bool,
    locked: Option<int>,
    open: Option<SpecOpen>,
) -> Seq<SpecRelease>
    decreases
            text.len() - pos + 1,
            (match open {
                Some(_) => 1int,
                None => 0int,
            }),
    via spec_scan_decreases
{
    if pos < 0 || pos > text.len() {
        match open {
            Some(o) => seq![close_eof(text, o)],
            None => Seq::<SpecRelease>::empty(),
        }
    } else {
        let le = line_end(text, pos);
        let line = text.subrange(pos, le);
        let next = if le < text.len() {
            Some(text.subrange(le + 1, line_end(text, le + 1)))
        } else {
            None
        };
        let h = if in_code || in_comment {
            None
        } else {
            spec_heading(line, next)
        };
        match h {
            None => {
                let ic = if is_fence(line) {
                    !in_code
                } else {
                    in_code
                };
                let cm = if !ic {
                    comment_after(line, in_comment)
                } else {
                    in_comment
                };
                spec_scan(text, vp, pp, le + 1, ic, cm, locked, open)
            },
            Some(hd) => {
                if locked matches Some(l) && hd.level > l {
                    spec_scan(text, vp, pp, le + 1, in_code, in_comment, locked, open)
                } else if locked matches Some(l) && hd.level < l {
                    match open {
                        Some(o) => seq![close_at(text, o, pos)] + spec_scan(
                            text,
                            vp,
                            pp,
                            le + 1,
                            in_code,
                            in_comment,
                            locked,
                            None,
                        ),
                        None => spec_scan(text, vp, pp, le + 1, in_code, in_comment, locked, None),
                    }
                } else {
                    match open {
                        Some(o) => seq![close_at(text, o, pos)] + spec_scan(
                            text,
                            vp,
                            pp,
                            pos,
                            in_code,
                            in_comment,
                            locked,
                            None,
                        ),
                        None => {
                            let ver = spec_extract(hd.text, pp).0;
                            if !regex_is_match(vp, ver) {
                                spec_scan(text, vp, pp, le + 1, in_code, in_comment, locked, None)
                            } else {
                                let lk = match locked {
                                    Some(l) => Some(l),
                                    None => Some(hd.level),
                                };
                                let after = if hd.setext {
                                    line_end(text, le + 1) + 1
                                } else {
                                    le + 1
                                };
                                let ns = skip_blanks(text, after);
                                if ns > text.len() {
                                    seq![SpecRelease {
                                        version: ver,
                                        title: hd.text,
                                        notes: Seq::<char>::empty(),
                                    }]
                                } else {
                                    spec_scan(
                                        text,
                                        vp,
                                        pp,
                                        ns,
                                        in_code,
                                        in_comment,
                                        lk,
                                        Some(
                                            SpecOpen {
                                                version: ver,
                                                title: hd.text,
                                                note_start: ns,
                                            },
                                        ),
                                    )
                                }
                            }
                        },
                    }
                }
            },
        }
    }
}

#[via_fn]
proof fn spec_scan_decreases(
    text: Seq<char>,
    vp: Seq<char>,
    pp: Seq<char>,
    pos: int,
    in_code: bool,
    in_comment: bool,
    locked: Option<int>,
    open: Option<SpecOpen>,
) {
    if 0 <= pos <= text.len() {
        lemma_line_end(text, pos);
        let le = line_end(text, pos);
        if le < text.len() {
            lemma_line_end(text, le + 1);
        }
        lemma_skip_blanks(text, le + 1);
        if le < text.len() {
            lemma_skip_blanks(text, line_end(text, le + 1) + 1);
        }
    }
}

/// The releases of a whole document under the version format `vp` and the
/// prefix format `pp`.
pub open spec fn spec_releases(text: Seq<char>, vp: Seq<char>, pp: Seq<char>) -> Seq<SpecRelease> {
    spec_scan(text, vp, pp, 0, false, false, None, None)
}

/// The locked heading level as a mathematical value.
pub open spec fn spec_opt_level(l: Option<u8>) -> Option<int> {
    match l {
        Some(v) => Some(v as int),
        None => None,
    }
}

fn make_open_marker() -> (v: Vec<char>)
    ensures
        v@ == open_marker(),
{
    let mut v: Vec<char> = Vec::new();
    v.push('<');
    v.push('!');
    v.push('-');
    v.push('-');
    proof {
        assert(v@ =~= open_marker());
    }
    v
}

fn make_close_marker() -> (v: Vec<char>)
    ensures
        v@ == close_marker(),
{
    let mut v: Vec<char> = Vec::new();
    v.push('-');
    v.push('-');
    v.push('>');
    proof {
        assert(v@ =~= close_marker());
    }
    v
}

/// Decides whether the line `[a, b)` of `text` is a code fence.
fn is_fence_range(text: &Vec<char>, a: usize, b: usize) -> (r: bool)
    requires
        a <= b <= text@.len(),
    ensures
        r == is_fence(text@.subrange(a as int, b as int)),
{
    let ghost line = text@.subrange(a as int, b as int);
    let sp = range_leading_spaces_capped(text, a, b, 4);
    proof {
        lemma_leading_spaces(line);
    }
    if sp == 4 {
        proof {
            assert(trim_start3(line)[0] == ' ');
        }
        return false;
    }
    let t0: usize = a + sp;
    let ghost t = text@.subrange(t0 as int, b as int);
    proof {
        assert(t =~= trim_start3(line));
    }
    if b - t0 < 3 {
        return false;
    }
    proof {
        assert(t[0] == text@[t0 as int]);
        assert(t[1] == text@[t0 + 1]);
        assert(t[2] == text@[t0 + 2]);
    }
    text[t0] == '`' && text[t0 + 1] == '`' && text[t0 + 2] == '`'
}

/// Applies the comment markers of the line `[a, b)` of `text` to the
/// comment state `c0`.
fn handle_comment_range(text: &Vec<char>, a: usize, b: usize, c0: bool) -> (r: bool)
    requires
        a <= b <= text@.len(),
    ensures
        r == comment_after(text@.subrange(a as int, b as int), c0),
{
    let om = make_open_marker();
    let cm = make_close_marker();
    let mut cur: usize = a;
    let mut st: bool = c0;
    loop
        invariant
            a <= cur <= b <= text@.len(),
            om@ == open_marker(),
            cm@ == close_marker(),
            comment_after(text@.subrange(cur as int, b as int), st) == comment_after(
                text@.subrange(a as int, b as int),
                c0,
            ),
        decreases b - cur,
    {
        let ghost s = text@.subrange(cur as int, b as int);
        let o = range_find_sub(text, cur, b, &om, 0);
        let cl = range_find_sub(text, cur, b, &cm, 0);
        match (o, cl) {
            (None, None) => {
                return st;
            },
            (Some(_), None) => {
                return true;
            },
            (None, Some(_)) => {
                return false;
            },
            (Some(i), Some(j)) => {
                if i < j {
                    proof {
                        lemma_find_sub_from(s, close_marker(), 0);
                        assert(s.skip(j + 3) =~= text@.subrange(cur + j + 3, b as int));
                    }
                    st = false;
                    cur = cur + j + 3;
                } else {
                    proof {
                        lemma_find_sub_from(s, open_marker(), 0);
                        assert(s.skip(i + 4) =~= text@.subrange(cur + i + 4, b as int));
                    }
                    st = true;
                    cur = cur + i + 4;
                }
            },
        }
    }
}

/// Finds the first non-blank line start at or after `pos`; the flag is set
/// when every remaining line is blank.
fn skip_blanks_from(text: &Vec<char>, pos: usize) -> (r: (usize, bool))
    requires
        pos <= text@.len(),
    ensures
        ({
            let sb = skip_blanks(text@, pos as int);
            if r.1 {
                sb == text@.len() + 1
            } else {
                sb == r.0 && pos <= r.0 <= text@.len()
            }
        }),
{
    let n = text.len();
    let mut cur: usize = pos;
    loop
        invariant
            pos <= cur <= n,
            n == text@.len(),
            skip_blanks(text@, cur as int) == skip_blanks(text@, pos as int),
        decreases n - cur,
    {
        let le = find_line_end(text, cur);
        if range_is_blank(text, cur, le) {
            if le == n {
                proof {
                    assert(skip_blanks(text@, cur as int) == skip_blanks(text@, n + 1));
                }
                return (0, true);
            }
            cur = le + 1;
        } else {
            return (cur, false);
        }
    }
}

/// Builds a release record from character vectors.
fn make_release(version: &Vec<char>, title: &Vec<char>, notes: &Vec<char>) -> (r: Release)
    ensures
        r@ == (SpecRelease { version: version@, title: title@, notes: notes@ }),
{
    Release {
        version: chars_to_string(version),
        title: chars_to_string(title),
        notes: chars_to_string(notes),
    }
}

/// An iterator over the releases of one document. It holds the document's
/// characters, the two formats, and the scan state: the cursor, and the
/// locked heading level.
pub struct ParseIter {
    text: Vec<char>,
    version_format: Pattern,
    prefix_format: Pattern,
    pos: usize,
    done: bool,
    level: Option<u8>,
}

impl ParseIter {
    /// The document's characters.
    pub closed spec fn text_view(&self) -> Seq<char> {
        self.text@
    }

    /// The version format's pattern text.
    pub closed spec fn vsrc(&self) -> Seq<char> {
        self.version_format.src()
    }

    /// The prefix format's pattern text.
    pub closed spec fn psrc(&self) -> Seq<char> {
        self.prefix_format.src()
    }

    /// The cursor: a line start, or one past the end when the scan is over.
    pub closed spec fn spec_pos(&self) -> int {
        if self.done {
            self.text@.len() + 1int
        } else {
            self.pos as int
        }
    }

    /// The locked heading level.
    pub closed spec fn spec_level(&self) -> Option<int> {
        spec_opt_level(self.level)
    }

    /// The cursor stays within the document.
    pub closed spec fn wf(&self) -> bool {
        !self.done ==> self.pos <= self.text@.len()
    }

    /// The releases this iterator has yet to yield.
    pub open spec fn remaining(&self) -> Seq<SpecRelease> {
        spec_scan(
            self.text_view(),
            self.vsrc(),
            self.psrc(),
            self.spec_pos(),
            false,
            false,
            self.spec_level(),
            None,
        )
    }

    /// Starts a scan of `text` under the given formats.
    pub(crate) fn begin(text: &str, version_format: Pattern, prefix_format: Pattern) -> (it:
        ParseIter)
        ensures
            it.wf(),
            it.text_view() == text@,
            it.vsrc() == version_format.src(),
            it.psrc() == prefix_format.src(),
            it.remaining() == spec_releases(text@, version_format.src(), prefix_format.src()),
    {
        ParseIter {
            text: str_to_chars(text),
            version_format,
            prefix_format,
            pos: 0,
            done: false,
            level: None,
        }
    }

    /// Yields the next release, or `None` when no release remains.
    pub fn next(&mut self) -> (r: Option<Release>)
        requires
            old(self).wf(),
        ensures
            final(self).wf(),
            final(self).text_view() == old(self).text_view(),
            final(self).vsrc() == old(self).vsrc(),
            final(self).psrc() == old(self).psrc(),
            match r {
                Some(rel) => {
                    &&& old(self).remaining().len() > 0
                    &&& rel@ == old(self).remaining()[0]
                    &&& final(self).remaining() == old(self).remaining().skip(1)
                },
                None => {
                    &&& old(self).remaining() == Seq::<SpecRelease>::empty()
                    &&& final(self).remaining() == Seq::<SpecRelease>::empty()
                },
            },
    {
        let ghost tv = self.text@;
        let ghost vp = self.version_format.src();
        let ghost pp = self.prefix_format.src();
        let n = self.text.len();
        if self.done {
            return None;
        }
        let mut on_code: bool = false;
        let mut on_comment: bool = false;
        let mut have_open: bool = false;
        let mut cur_version: Vec<char> = Vec::new();
        let mut cur_title: Vec<char> = Vec::new();
        let mut rns: usize = 0;
        loop
            invariant
                self.text@ == tv,
                self.version_format.src() == vp,
                self.prefix_format.src() == pp,
                self.version_format == old(self).version_format,
                self.prefix_format == old(self).prefix_format,
                tv == old(self).text_view(),
                vp == old(self).vsrc(),
                pp == old(self).psrc(),
                n == tv.len(),
                !self.done,
                self.pos <= n,
                have_open ==> self.level is Some,
                have_open ==> rns <= self.pos,
                spec_scan(
                    tv,
                    vp,
                    pp,
                    self.pos as int,
                    on_code,
                    on_comment,
                    spec_opt_level(self.level),
                    if have_open {
                        Some(
                            SpecOpen {
                                version: cur_version@,
                                title: cur_title@,
                                note_start: rns as int,
                            },
                        )
                    } else {
                        None
                    },
                ) == old(self).remaining(),
            decreases n - self.pos,
        {
            let ghost openg: Option<SpecOpen> = if have_open {
                Some(SpecOpen { version: cur_version@, title: cur_title@, note_start: rns as int })
            } else {
                None
            };
            let ghost lkg = spec_opt_level(self.level);
            let ghost before = spec_scan(
                tv,
                vp,
                pp,
                self.pos as int,
                on_code,
                on_comment,
                lkg,
                openg,
            );
            let pos = self.pos;
            let le = find_line_end(&self.text, pos);
            let ghost line = tv.subrange(pos as int, le as int);
            let nxt: Option<(usize, usize)> = if le < n {
                Some((le + 1, find_line_end(&self.text, le + 1)))
            } else {
                None
            };
            let ghost nextg: Option<Seq<char>> = match nxt {
                Some(q) => Some(tv.subrange(q.0 as int, q.1 as int)),
                None => None,
            };
            proof {
                assert(nextg == (if le < tv.len() {
                    Some(tv.subrange(le + 1, line_end(tv, le + 1)))
                } else {
                    None
                }));
            }
            let h: Option<HeadingHit> = if on_code || on_comment {
                None
            } else {
                heading_at(&self.text, pos, le, nxt)
            };
            let ghost hg: Option<SpecHeading> = if on_code || on_comment {
                None
            } else {
                spec_heading(line, nextg)
            };
            match h {
                None => {
                    proof {
                        assert(hg is None);
                    }
                    if is_fence_range(&self.text, pos, le) {
                        on_code = !on_code;
                    }
                    if !on_code {
                        on_comment = handle_comment_range(&self.text, pos, le, on_comment);
                    }
                    proof {
                        assert(before == spec_scan(
                            tv,
                            vp,
                            pp,
                            le + 1,
                            on_code,
                            on_comment,
                            lkg,
                            openg,
                        ));
                    }
                    if le == n {
                        self.done = true;
                        proof {
                            assert(self.spec_pos() == n + 1);
                        }
                        if have_open {
                            let hb = range_trim_back(&self.text, rns, n);
                            let notes = subvec(&self.text, rns, hb);
                            let rel = make_release(&cur_version, &cur_title, &notes);
                            proof {
                                let o = openg->0;
                                assert(before == seq![close_eof(tv, o)]);
                                assert(rel@ == close_eof(tv, o));
                                assert(before.skip(1) =~= Seq::<SpecRelease>::empty());
                                assert(self.remaining() == Seq::<SpecRelease>::empty());
                            }
                            return Some(rel);
                        }
                        proof {
                            assert(before =~= Seq::<SpecRelease>::empty());
                        }
                        return None;
                    }
                    self.pos = le + 1;
                },
                Some(hh) => {
                    proof {
                        assert(hg == Some(
                            SpecHeading {
                                text: tv.subrange(hh.start as int, hh.end as int),
                                level: hh.level as int,
                                setext: hh.setext,
                            },
                        ));
                        assert(!on_code && !on_comment);
                    }
                    let ghost hd = hg->0;
                    let mut examine_as_candidate = true;
                    if let Some(lv) = self.level {
                        if hh.level > lv {
                            // A nested heading: content of the open release.
                            proof {
                                assert(before == spec_scan(
                                    tv,
                                    vp,
                                    pp,
                                    le + 1,
                                    on_code,
                                    on_comment,
                                    lkg,
                                    openg,
                                ));
                            }
                            if le == n {
                                self.done = true;
                                if have_open {
                                    let hb = range_trim_back(&self.text, rns, n);
                                    let notes = subvec(&self.text, rns, hb);
                                    let rel = make_release(&cur_version, &cur_title, &notes);
                                    proof {
                                        let o = openg->0;
                                        assert(before == seq![close_eof(tv, o)]);
                                        assert(before.skip(1) =~= Seq::<SpecRelease>::empty());
                                    }
                                    return Some(rel);
                                }
                                proof {
                                    assert(before =~= Seq::<SpecRelease>::empty());
                                }
                                return None;
                            }
                            self.pos = le + 1;
                            examine_as_candidate = false;
                        } else if hh.level < lv {
                            // A heading above the release level: it ends the
                            // open release and is itself dropped.
                            proof {
                                if !have_open {
                                    assert(before == spec_scan(
                                        tv,
                                        vp,
                                        pp,
                                        le + 1,
                                        on_code,
                                        on_comment,
                                        lkg,
                                        None,
                                    ));
                                }
                            }
                            if have_open {
                                let notes: Vec<char> = if rns < pos {
                                    let hb = range_trim_back(&self.text, rns, pos - 1);
                                    subvec(&self.text, rns, hb)
                                } else {
                                    Vec::new()
                                };
                                let rel = make_release(&cur_version, &cur_title, &notes);
                                let ghost o = openg->0;
                                proof {
                                    assert(rel@ == close_at(tv, o, pos as int));
                                    assert(before == seq![close_at(tv, o, pos as int)] + spec_scan(
                                        tv,
                                        vp,
                                        pp,
                                        le + 1,
                                        on_code,
                                        on_comment,
                                        lkg,
                                        None,
                                    ));
                                }
                                if le == n {
                                    self.done = true;
                                } else {
                                    self.pos = le + 1;
                                }
                                proof {
                                    assert(self.remaining() == spec_scan(
                                        tv,
                                        vp,
                                        pp,
                                        le + 1,
                                        on_code,
                                        on_comment,
                                        lkg,
                                        None,
                                    ));
                                    assert(before.skip(1) =~= self.remaining());
                                    assert(rel@ == before[0]);
                                }
                                return Some(rel);
                            }
                            if le == n {
                                self.done = true;
                                proof {
                                    assert(before =~= Seq::<SpecRelease>::empty());
                                }
                                return None;
                            }
                            self.pos = le + 1;
                            examine_as_candidate = false;
                        } else {
                            // A heading at the locked level: it ends the open
                            // release; the same line is examined again.
                            if have_open {
                                let notes: Vec<char> = if rns < pos {
                                    let hb = range_trim_back(&self.text, rns, pos - 1);
                                    subvec(&self.text, rns, hb)
                                } else {
                                    Vec::new()
                                };
                                let rel = make_release(&cur_version, &cur_title, &notes);
                                let ghost o = openg->0;
                                proof {
                                    assert(rel@ == close_at(tv, o, pos as int));
                                    assert(before == seq![close_at(tv, o, pos as int)] + spec_scan(
                                        tv,
                                        vp,
                                        pp,
                                        pos as int,
                                        on_code,
                                        on_comment,
                                        lkg,
                                        None,
                                    ));
                                    assert(self.remaining() == spec_scan(
                                        tv,
                                        vp,
                                        pp,
                                        pos as int,
                                        on_code,
                                        on_comment,
                                        lkg,
                                        None,
                                    ));
                                    assert(before.skip(1) =~= self.remaining());
                                    assert(rel@ == before[0]);
                                }
                                return Some(rel);
                            }
                        }
                    }
                    if examine_as_candidate {
                        // No release is open; the heading is examined as a
                        // release candidate.
                        let (v0, v1, _r0, _w) = extract_range(
                            &self.text,
                            hh.start,
                            hh.end,
                            &self.prefix_format,
                        );
                        let ver = subvec(&self.text, v0, v1);
                        proof {
                            assert(ver@ == spec_extract(hd.text, pp).0);
                        }
                        if !self.version_format.is_match(&ver) {
                            proof {
                                assert(before == spec_scan(
                                    tv,
                                    vp,
                                    pp,
                                    le + 1,
                                    on_code,
                                    on_comment,
                                    lkg,
                                    None,
                                ));
                            }
                            if le == n {
                                self.done = true;
                                proof {
                                    assert(before =~= Seq::<SpecRelease>::empty());
                                }
                                return None;
                            }
                            self.pos = le + 1;
                        } else {
                            let title = subvec(&self.text, hh.start, hh.end);
                            if self.level.is_none() {
                                self.level = Some(hh.level);
                            }
                            let ghost lk2 = spec_opt_level(self.level);
                            proof {
                                assert(lk2 == (match lkg {
                                    Some(l) => Some(l),
                                    None => Some(hd.level),
                                }));
                            }
                            // Consume the heading line (and, for Setext, the
                            // underline), then skip blank lines.
                            let mut past_end: bool = le == n;
                            let mut after: usize = 0;
                            if !past_end {
                                after = le + 1;
                                if hh.setext {
                                    let le2 = find_line_end(&self.text, after);
                                    if le2 == n {
                                        past_end = true;
                                    } else {
                                        after = le2 + 1;
                                    }
                                }
                            }
                            let ghost after_spec: int = if hd.setext {
                                line_end(tv, le + 1) + 1
                            } else {
                                le + 1
                            };
                            proof {
                                lemma_line_end(tv, pos as int);
                                if hd.setext && le < n {
                                    lemma_line_end(tv, le + 1);
                                }
                                if past_end {
                                    assert(after_spec == n + 1 || (hd.setext && line_end(tv, le + 1)
                                        == n));
                                    assert(skip_blanks(tv, after_spec) == n + 1);
                                } else {
                                    assert(after == after_spec);
                                }
                            }
                            let mut ns: usize = 0;
                            if !past_end {
                                let (sb, pe) = skip_blanks_from(&self.text, after);
                                if pe {
                                    past_end = true;
                                } else {
                                    ns = sb;
                                }
                            }
                            if past_end {
                                // No line follows: the release closes at once
                                // with empty notes.
                                self.done = true;
                                let notes: Vec<char> = Vec::new();
                                let rel = make_release(&ver, &title, &notes);
                                proof {
                                    assert(skip_blanks(tv, after_spec) == n + 1);
                                    assert(before == seq![
                                        SpecRelease {
                                            version: ver@,
                                            title: hd.text,
                                            notes: Seq::<char>::empty(),
                                        },
                                    ]);
                                    assert(rel@ == before[0]);
                                    assert(before.skip(1) =~= Seq::<SpecRelease>::empty());
                                }
                                return Some(rel);
                            }
                            proof {
                                assert(ns == skip_blanks(tv, after_spec));
                            }
                            have_open = true;
                            cur_version = ver;
                            cur_title = title;
                            rns = ns;
                            self.pos = ns;
                            proof {
                                assert(spec_scan(
                                    tv,
                                    vp,
                                    pp,
                                    self.pos as int,
                                    on_code,
                                    on_comment,
                                    spec_opt_level(self.level),
                                    Some(
                                        SpecOpen {
                                            version: cur_version@,
                                            title: cur_title@,
                                            note_start: rns as int,
                                        },
                                    ),
                                ) == before);
                            }
                        }
                    }
                },
            }
        }
    }
}

} // verus!
