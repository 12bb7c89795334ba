//! Heading detection: Atx-style headings (`#` to `######` at the start of a
//! line) and Setext-style headings (a text line underlined with `=` or `-`).
//! A line indented by four or more spaces is never a heading.

use vstd::prelude::*;

use crate::chars::{
    chars_to_string, is_ws_char, leading_spaces, lemma_leading_spaces, range_leading_spaces_capped,
    range_trim, range_trim_back, str_to_chars, subvec, trim_back, trim_both,
};

verus! {

/// A detected heading: its text, its level (1 to 6), and its style.
pub ghost struct SpecHeading {
    pub text: Seq<char>,
    pub level: int,
    pub setext: bool,
}

/// The number of `'#'` characters at the front of `s`.
pub open spec fn leading_hashes(s: Seq<char>) -> int
    decreases s.len(),
{
    if s.len() > 0 && s[0] == '#' {
        1 + leading_hashes(s.subrange(1, s.len() as int))
    } else {
        0
    }
}

pub proof fn lemma_leading_hashes(s: Seq<char>)
    ensures
        0 <= leading_hashes(s) <= s.len(),
        forall|j: int| 0 <= j < leading_hashes(s) ==> s[j] == '#',
        leading_hashes(s) < s.len() ==> s[leading_hashes(s)] != '#',
    decreases s.len(),
{
    if s.len() > 0 && s[0] == '#' {
        let s1 = s.subrange(1, s.len() as int);
        lemma_leading_hashes(s1);
        assert forall|j: int| 0 <= j < leading_hashes(s) implies s[j] == '#' by {
            if j > 0 {
                assert(s1[j - 1] == '#');
            }
        }
        if leading_hashes(s) < s.len() {
            assert(s1[leading_hashes(s) - 1] == s[leading_hashes(s)]);
        }
    }
}

pub proof fn lemma_leading_hashes_agrees(s: Seq<char>, k: int)
    requires
        0 <= k <= s.len(),
        forall|j: int| 0 <= j < k ==> s[j] == '#',
        k == s.len() || s[k] != '#',
    ensures
        leading_hashes(s) == k,
    decreases k,
{
    if k > 0 {
        let s1 = s.subrange(1, s.len() as int);
        assert forall|j: int| 0 <= j < k - 1 implies s1[j] == '#' by {
            assert(s1[j] == s[j + 1]);
        }
        if k - 1 < s1.len() {
            assert(s1[k - 1] == s[k as int]);
        }
        lemma_leading_hashes_agrees(s1, k - 1);
    }
}

/// `s` with one to three leading spaces removed; four or more leave it
/// unchanged.
pub open spec fn trim_start3(s: Seq<char>) -> Seq<char> {
    if leading_spaces(s) >= 4 {
        s
    } else {
        s.skip(leading_spaces(s))
    }
}

/// Whether every character of `s` is `c`.
pub open spec fn all_char(s: Seq<char>, c: char) -> bool {
    forall|j: int| 0 <= j < s.len() ==> s[j] == c
}

/// Whether a trimmed underline-candidate line underlines a Setext heading
/// with the character `c` (`'='` for level 1, `'-'` for level 2).
pub open spec fn is_underline(tn: Seq<char>, c: char) -> bool {
    tn.len() > 0 && tn[0] == c && all_char(trim_back(tn.skip(1)), c)
}

/// Decides whether `line` (with `next` the line after it, where one exists)
/// is a heading, and what heading it is.
///
/// Atx: after one to three leading spaces, one to six `#` followed by a
/// space, a tab or the end of the line; the text is what follows, trimmed.
/// Setext: the next line, after one to three leading spaces, consists of
/// `=` or `-` throughout (trailing white space ignored); the text is the
/// current line, leading spaces stripped and trailing white space trimmed.
/// A line with four or more leading spaces is no heading.
pub open spec fn spec_heading(line: Seq<char>, next: Option<Seq<char>>) -> Option<SpecHeading> {
    if leading_spaces(line) >= 4 {
        None
    } else {
        let t = line.skip(leading_spaces(line));
        let n = leading_hashes(t);
        if t.len() > 0 && t[0] == '#' && n <= 6 && (n == t.len() || t[n] == ' ' || t[n] == '\t') {
            Some(
                SpecHeading {
                    text: if n < t.len() {
                        trim_both(t.skip(n + 1))
                    } else {
                        Seq::<char>::empty()
                    },
                    level: n,
                    setext: false,
                },
            )
        } else {
            match next {
                None => None,
                Some(nx) => {
                    let tn = trim_start3(nx);
                    if is_underline(tn, '=') {
                        Some(SpecHeading { text: trim_back(t), level: 1, setext: true })
                    } else if is_underline(tn, '-') {
                        Some(SpecHeading { text: trim_back(t), level: 2, setext: true })
                    } else {
                        None
                    }
                },
            }
        }
    }
}

/// A detected heading, as ranges into the scanned text.
pub(crate) struct HeadingHit {
    pub start: usize,
    pub end: usize,
    pub level: u8,
    pub setext: bool,
}

/// Checks whether the range `[a, b)` of `text`, trimmed as an
/// underline-candidate, underlines a Setext heading with `c`.
fn range_is_underline(text: &Vec<char>, a: usize, b: usize, c: char) -> (r: bool)
    requires
        a <= b <= text@.len(),
        c == '=' || c == '-',
    ensures
        r == is_underline(trim_start3(text@.subrange(a as int, b as int)), c),
{
    let ghost nx = text@.subrange(a as int, b as int);
    let sp = range_leading_spaces_capped(text, a, b, 4);
    proof {
        lemma_leading_spaces(nx);
    }
    if sp == 4 {
        // Four or more leading spaces: the candidate keeps them and its
        // first character is a space, which is neither '=' nor '-'.
        proof {
            assert(trim_start3(nx)[0] == ' ');
        }
        return false;
    }
    let t0: usize = a + sp;
    let ghost tn = text@.subrange(t0 as int, b as int);
    proof {
        assert(tn =~= trim_start3(nx));
    }
    if t0 == b {
        return false;
    }
    if text[t0] != c {
        proof {
            assert(tn[0] == text@[t0 as int]);
        }
        return false;
    }
    let hb = range_trim_back(text, t0 + 1, b);
    proof {
        assert(text@.subrange(t0 + 1, b as int) =~= tn.skip(1));
        assert(text@.subrange(t0 + 1, hb as int) == trim_back(tn.skip(1)));
    }
    let ghost core = trim_back(tn.skip(1));
    let mut i: usize = t0 + 1;
    while i < hb
        invariant
            t0 + 1 <= i <= hb <= text@.len(),
            core == text@.subrange(t0 + 1, hb as int),
            core == trim_back(tn.skip(1)),
            tn[0] == c,
            tn == trim_start3(nx),
            nx == text@.subrange(a as int, b as int),
            a <= b <= text@.len(),
            tn.len() > 0,
            forall|j: int| 0 <= j < i - t0 - 1 ==> core[j] == c,
        decreases hb - i,
    {
        assert(core[i - t0 - 1] == text@[i as int]);
        if text[i] != c {
            assert(!all_char(core, c)) by {
                assert(core[i - t0 - 1] != c);
            }
            return false;
        }
        i += 1;
    }
    true
}

/// Detects a heading at the line `[pos, le)` of `text`, with `nxt` the range
/// of the following line where one exists. A hit carries the heading text as
/// a range into `text`.
pub(crate) fn heading_at(
    text: &Vec<char>,
    pos: usize,
    le: usize,
    nxt: Option<(usize, usize)>,
) -> (r: Option<HeadingHit>)
    requires
        pos <= le <= text@.len(),
        nxt matches Some(q) ==> q.0 <= q.1 <= text@.len(),
    ensures
        ({
            let line = text@.subrange(pos as int, le as int);
            let next = match nxt {
                Some(q) => Some(text@.subrange(q.0 as int, q.1 as int)),
                None => None,
            };
            match r {
                Some(h) => {
                    &&& pos <= h.start <= h.end <= le
                    &&& 1 <= h.level <= 6
                    &&& spec_heading(line, next) == Some(
                        SpecHeading {
                            text: text@.subrange(h.start as int, h.end as int),
                            level: h.level as int,
                            setext: h.setext,
                        },
                    )
                },
                None => spec_heading(line, next) is None,
            }
        }),
{
    let ghost line = text@.subrange(pos as int, le as int);
    let sp = range_leading_spaces_capped(text, pos, le, 4);
    proof {
        lemma_leading_spaces(line);
    }
    if sp == 4 {
        return None;
    }
    let t0: usize = pos + sp;
    let ghost t = text@.subrange(t0 as int, le as int);
    proof {
        assert(t =~= line.skip(leading_spaces(line)));
    }
    // Count leading '#', stopping at 8: seven or more already disqualify.
    let mut n: usize = 0;
    while n < 8 && t0 + n < le && text[t0 + n] == '#'
        invariant
            0 <= n <= 8,
            n <= le - t0,
            t0 <= le <= text@.len(),
            t == text@.subrange(t0 as int, le as int),
            forall|j: int| 0 <= j < n ==> t[j] == '#',
        decreases 8 - n,
    {
        n += 1;
    }
    proof {
        if n < 8 {
            if t0 + n < le {
                assert(t[n as int] == text@[t0 + n]);
            }
            lemma_leading_hashes_agrees(t, n as int);
        } else {
            lemma_leading_hashes(t);
            if leading_hashes(t) < n {
                assert(t[leading_hashes(t)] == '#');
            }
        }
    }
    if n >= 1 && n <= 6 && (t0 + n == le || text[t0 + n] == ' ' || text[t0 + n] == '\t') {
        proof {
            assert(t.len() > 0 && t[0] == '#');
            if t0 + n < le {
                assert(t[n as int] == text@[t0 + n]);
            }
        }
        if t0 + n < le {
            let (h0, h1) = range_trim(text, t0 + n + 1, le);
            proof {
                assert(text@.subrange(t0 + n + 1, le as int) =~= t.skip(n + 1));
            }
            return Some(HeadingHit { start: h0, end: h1, level: n as u8, setext: false });
        } else {
            proof {
                assert(text@.subrange(le as int, le as int) =~= Seq::<char>::empty());
            }
            return Some(HeadingHit { start: le, end: le, level: n as u8, setext: false });
        }
    }
    proof {
        // The Atx conditions failed in spec terms as well.
        if t.len() > 0 && t[0] == '#' {
            assert(t[0] == text@[t0 as int]);
        }
    }
    match nxt {
        None => None,
        Some((a2, b2)) => {
            if range_is_underline(text, a2, b2, '=') {
                let hb = range_trim_back(text, t0, le);
                return Some(HeadingHit { start: t0, end: hb, level: 1, setext: true });
            }
            if range_is_underline(text, a2, b2, '-') {
                let hb = range_trim_back(text, t0, le);
                return Some(HeadingHit { start: t0, end: hb, level: 2, setext: true });
            }
            None
        },
    }
}

/// Strips one to three leading spaces from `s`; four or more leave it
/// unchanged.
pub fn trim_start(s: &str) -> (r: String)
    ensures
        r@ == trim_start3(s@),
{
    let v = str_to_chars(s);
    let n = v.len();
    let ghost sv = v@;
    proof {
        assert(sv.subrange(0, sv.len() as int) =~= sv);
    }
    let sp = range_leading_spaces_capped(&v, 0, n, 4);
    proof {
        lemma_leading_spaces(sv);
    }
    if sp == 4 {
        let r = subvec(&v, 0, n);
        return chars_to_string(&r);
    }
    let r = subvec(&v, sp, n);
    proof {
        assert(sv.subrange(sp as int, sv.len() as int) =~= sv.skip(leading_spaces(sv)));
    }
    chars_to_string(&r)
}

} // verus!
