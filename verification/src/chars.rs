//! Character and line primitives: white space, line splitting, substring
//! search and trimming, over sequences of characters.

use vstd::prelude::*;

verus! {

/// The Unicode white-space characters, the set that `char::is_whitespace`
/// accepts.
pub open spec fn is_ws_char(c: char) -> bool {
    ||| c == ' '
    ||| c == '\t'
    ||| c == '\n'
    ||| c == '\u{b}'
    ||| c == '\u{c}'
    ||| c == '\r'
    ||| c == '\u{85}'
    ||| c == '\u{a0}'
    ||| c == '\u{1680}'
    ||| c == '\u{2000}'
    ||| c == '\u{2001}'
    ||| c == '\u{2002}'
    ||| c == '\u{2003}'
    ||| c == '\u{2004}'
    ||| c == '\u{2005}'
    ||| c == '\u{2006}'
    ||| c == '\u{2007}'
    ||| c == '\u{2008}'
    ||| c == '\u{2009}'
    ||| c == '\u{200a}'
    ||| c == '\u{2028}'
    ||| c == '\u{2029}'
    ||| c == '\u{202f}'
    ||| c == '\u{205f}'
    ||| c == '\u{3000}'
}

/// Decides white space for one character.
pub fn is_ws(c: char) -> (b: bool)
    ensures
        b == is_ws_char(c),
{
    c == ' ' || c == '\t' || c == '\n' || c == '\u{b}' || c == '\u{c}' || c == '\r'
        || c == '\u{85}' || c == '\u{a0}' || c == '\u{1680}' || c == '\u{2000}' || c == '\u{2001}'
        || c == '\u{2002}' || c == '\u{2003}' || c == '\u{2004}' || c == '\u{2005}'
        || c == '\u{2006}' || c == '\u{2007}' || c == '\u{2008}' || c == '\u{2009}'
        || c == '\u{200a}' || c == '\u{2028}' || c == '\u{2029}' || c == '\u{202f}'
        || c == '\u{205f}' || c == '\u{3000}'
}

/// A line is blank when every character in it is white space.
pub open spec fn is_blank(line: Seq<char>) -> bool {
    forall|j: int| 0 <= j < line.len() ==> is_ws_char(line[j])
}

/// Decides whether the range `[a, b)` of `text` is all white space.
pub fn range_is_blank(text: &Vec<char>, a: usize, b: usize) -> (r: bool)
    requires
        a <= b <= text@.len(),
    ensures
        r == is_blank(text@.subrange(a as int, b as int)),
{
    let mut i: usize = a;
    while i < b
        invariant
            a <= i <= b <= text@.len(),
            forall|j: int| a <= j < i ==> is_ws_char(text@[j]),
        decreases b - i,
    {
        if !is_ws(text[i]) {
            assert(!is_ws_char(text@.subrange(a as int, b as int)[i - a]));
            return false;
        }
        i += 1;
    }
    assert forall|j: int| 0 <= j < text@.subrange(a as int, b as int).len() implies is_ws_char(
        text@.subrange(a as int, b as int)[j],
    ) by {
        assert(text@.subrange(a as int, b as int)[j] == text@[a + j]);
    }
    true
}

/// The position of the line terminator of the line that starts at `pos`:
/// the first `'\n'` at or after `pos`, or the end of the text.
pub open spec fn line_end(text: Seq<char>, pos: int) -> int
    decreases text.len() - pos,
{
    if pos < 0 || pos >= text.len() {
        text.len() as int
    } else if text[pos] == '\n' {
        pos
    } else {
        line_end(text, pos + 1)
    }
}

pub proof fn lemma_line_end(text: Seq<char>, pos: int)
    requires
        0 <= pos <= text.len(),
    ensures
        pos <= line_end(text, pos) <= text.len(),
        line_end(text, pos) < text.len() ==> text[line_end(text, pos)] == '\n',
        forall|j: int| pos <= j < line_end(text, pos) ==> text[j] != '\n',
    decreases text.len() - pos,
{
    if pos < text.len() && text[pos] != '\n' {
        lemma_line_end(text, pos + 1);
    }
}

/// The characterisation above pins `line_end` down: any position with those
/// properties is `line_end`.
pub proof fn lemma_line_end_agrees(text: Seq<char>, pos: int, i: int)
    requires
        0 <= pos <= i <= text.len(),
        forall|j: int| pos <= j < i ==> text[j] != '\n',
        i == text.len() || text[i] == '\n',
    ensures
        line_end(text, pos) == i,
    decreases i - pos,
{
    if pos < i {
        lemma_line_end_agrees(text, pos + 1, i);
    }
}

/// Finds the line terminator of the line that starts at `pos`.
pub fn find_line_end(text: &Vec<char>, pos: usize) -> (le: usize)
    requires
        pos <= text@.len(),
    ensures
        le == line_end(text@, pos as int),
        pos <= le <= text@.len(),
{
    let n = text.len();
    let mut i: usize = pos;
    while i < n && text[i] != '\n'
        invariant
            pos <= i <= n,
            n == text@.len(),
            forall|j: int| pos <= j < i ==> text@[j] != '\n',
        decreases n - i,
    {
        i += 1;
    }
    proof {
        lemma_line_end_agrees(text@, pos as int, i as int);
    }
    i
}

/// Whether `pat` occurs in `s` starting at position `i`.
pub open spec fn matches_at(s: Seq<char>, pat: Seq<char>, i: int) -> bool {
    &&& 0 <= i
    &&& i + pat.len() <= s.len()
    &&& forall|k: int| 0 <= k < pat.len() ==> s[i + k] == pat[k]
}

/// The first position at or after `from` where `pat` occurs in `s`.
pub open spec fn find_sub_from(s: Seq<char>, pat: Seq<char>, from: int) -> Option<int>
    decreases s.len() - from,
{
    if from < 0 || from + pat.len() > s.len() {
        None
    } else if matches_at(s, pat, from) {
        Some(from)
    } else {
        find_sub_from(s, pat, from + 1)
    }
}

pub proof fn lemma_find_sub_from(s: Seq<char>, pat: Seq<char>, from: int)
    requires
        0 <= from,
    ensures
        match find_sub_from(s, pat, from) {
            Some(i) => from <= i && matches_at(s, pat, i) && forall|j: int|
                from <= j < i ==> !matches_at(s, pat, j),
            None => forall|j: int| from <= j ==> !matches_at(s, pat, j),
        },
    decreases s.len() - from,
{
    if !(from + pat.len() > s.len()) && !matches_at(s, pat, from) {
        lemma_find_sub_from(s, pat, from + 1);
    }
}

pub proof fn lemma_find_sub_from_agrees_some(s: Seq<char>, pat: Seq<char>, from: int, i: int)
    requires
        0 <= from <= i,
        matches_at(s, pat, i),
        forall|j: int| from <= j < i ==> !matches_at(s, pat, j),
    ensures
        find_sub_from(s, pat, from) == Some(i),
    decreases i - from,
{
    if from < i {
        lemma_find_sub_from_agrees_some(s, pat, from + 1, i);
    }
}

pub proof fn lemma_find_sub_from_agrees_none(s: Seq<char>, pat: Seq<char>, from: int)
    requires
        0 <= from,
        forall|j: int| from <= j ==> !matches_at(s, pat, j),
    ensures
        find_sub_from(s, pat, from) is None,
    decreases s.len() - from,
{
    if !(from + pat.len() > s.len()) {
        lemma_find_sub_from_agrees_none(s, pat, from + 1);
    }
}

/// Whether `pat` occurs at offset `off` of the range `[a, b)` of `text`.
fn range_matches_at(text: &Vec<char>, a: usize, b: usize, pat: &Vec<char>, off: usize) -> (r: bool)
    requires
        a <= b <= text@.len(),
        off + pat@.len() <= b - a,
    ensures
        r == matches_at(text@.subrange(a as int, b as int), pat@, off as int),
{
    let ghost s = text@.subrange(a as int, b as int);
    let p_len = pat.len();
    let mut k: usize = 0;
    while k < p_len
        invariant
            0 <= k <= p_len,
            p_len == pat@.len(),
            off + p_len <= b - a,
            a <= b <= text@.len(),
            s == text@.subrange(a as int, b as int),
            forall|j: int| 0 <= j < k ==> s[off + j] == pat@[j],
        decreases p_len - k,
    {
        assert(s[off + k] == text@[a + off + k]);
        if text[a + off + k] != pat[k] {
            assert(!matches_at(s, pat@, off as int)) by {
                assert(s[off + k as int] != pat@[k as int]);
            }
            return false;
        }
        k += 1;
    }
    true
}

/// Finds the first occurrence of `pat` at or after `from` within the range
/// `[a, b)` of `text`; the result is an offset within that range.
pub fn range_find_sub(text: &Vec<char>, a: usize, b: usize, pat: &Vec<char>, from: usize) -> (r:
    Option<usize>)
    requires
        a <= b <= text@.len(),
        pat@.len() >= 1,
    ensures
        match r {
            Some(i) => from <= i && find_sub_from(
                text@.subrange(a as int, b as int),
                pat@,
                from as int,
            ) == Some(i as int),
            None => find_sub_from(text@.subrange(a as int, b as int), pat@, from as int) is None,
        },
{
    let ghost s = text@.subrange(a as int, b as int);
    let s_len: usize = b - a;
    let p_len = pat.len();
    if p_len > s_len || from > s_len - p_len {
        proof {
            assert forall|j: int| from <= j implies !matches_at(s, pat@, j) by {}
            lemma_find_sub_from_agrees_none(s, pat@, from as int);
        }
        return None;
    }
    let mut i: usize = from;
    while i <= s_len - p_len
        invariant
            from <= i,
            p_len == pat@.len(),
            1 <= p_len <= s_len,
            s_len == b - a,
            a <= b <= text@.len(),
            s == text@.subrange(a as int, b as int),
            forall|j: int| from <= j < i ==> !matches_at(s, pat@, j),
        decreases s_len - p_len + 1 - i,
    {
        if range_matches_at(text, a, b, pat, i) {
            proof {
                lemma_find_sub_from_agrees_some(s, pat@, from as int, i as int);
            }
            return Some(i);
        }
        i += 1;
    }
    proof {
        assert forall|j: int| from <= j implies !matches_at(s, pat@, j) by {
            if j + pat@.len() <= s.len() {
                assert(j < i);
            }
        }
        lemma_find_sub_from_agrees_none(s, pat@, from as int);
    }
    None
}

/// The first position at or after `from` where the character `c` occurs in `s`.
pub open spec fn find_char_from(s: Seq<char>, c: char, from: int) -> Option<int>
    decreases s.len() - from,
{
    if from < 0 || from >= s.len() {
        None
    } else if s[from] == c {
        Some(from)
    } else {
        find_char_from(s, c, from + 1)
    }
}

pub proof fn lemma_find_char_from(s: Seq<char>, c: char, from: int)
    requires
        0 <= from,
    ensures
        match find_char_from(s, c, from) {
            Some(i) => from <= i < s.len() && s[i] == c && forall|j: int|
                from <= j < i ==> s[j] != c,
            None => forall|j: int| from <= j < s.len() ==> s[j] != c,
        },
    decreases s.len() - from,
{
    if from < s.len() && s[from] != c {
        lemma_find_char_from(s, c, from + 1);
    }
}

pub proof fn lemma_find_char_from_agrees_some(s: Seq<char>, c: char, from: int, i: int)
    requires
        0 <= from <= i < s.len(),
        s[i] == c,
        forall|j: int| from <= j < i ==> s[j] != c,
    ensures
        find_char_from(s, c, from) == Some(i),
    decreases i - from,
{
    if from < i {
        lemma_find_char_from_agrees_some(s, c, from + 1, i);
    }
}

pub proof fn lemma_find_char_from_agrees_none(s: Seq<char>, c: char, from: int)
    requires
        0 <= from,
        forall|j: int| from <= j < s.len() ==> s[j] != c,
    ensures
        find_char_from(s, c, from) is None,
    decreases s.len() - from,
{
    if from < s.len() {
        lemma_find_char_from_agrees_none(s, c, from + 1);
    }
}

/// Finds the first occurrence of `c` at or after offset `from` within the
/// range `[a, b)` of `text`; the result is an offset within that range.
pub fn range_find_char(text: &Vec<char>, a: usize, b: usize, c: char, from: usize) -> (r: Option<
    usize,
>)
    requires
        a <= b <= text@.len(),
    ensures
        match r {
            Some(i) => from <= i < b - a && find_char_from(
                text@.subrange(a as int, b as int),
                c,
                from as int,
            ) == Some(i as int),
            None => find_char_from(text@.subrange(a as int, b as int), c, from as int) is None,
        },
{
    let ghost s = text@.subrange(a as int, b as int);
    if from >= b - a {
        proof {
            lemma_find_char_from_agrees_none(s, c, from as int);
        }
        return None;
    }
    let mut i: usize = from;
    while i < b - a
        invariant
            from <= i <= b - a,
            a <= b <= text@.len(),
            s == text@.subrange(a as int, b as int),
            forall|j: int| from <= j < i ==> s[j] != c,
        decreases b - a - i,
    {
        assert(s[i as int] == text@[a + i]);
        if text[a + i] == c {
            proof {
                lemma_find_char_from_agrees_some(s, c, from as int, i as int);
            }
            return Some(i);
        }
        i += 1;
    }
    proof {
        lemma_find_char_from_agrees_none(s, c, from as int);
    }
    None
}

/// Appends the range `[a, b)` of `text` to `buf`.
pub fn push_range(buf: &mut Vec<char>, text: &Vec<char>, a: usize, b: usize)
    requires
        a <= b <= text@.len(),
    ensures
        final(buf)@ == old(buf)@ + text@.subrange(a as int, b as int),
{
    let mut i: usize = a;
    while i < b
        invariant
            a <= i <= b <= text@.len(),
            buf@ =~= old(buf)@ + text@.subrange(a as int, i as int),
        decreases b - i,
    {
        buf.push(text[i]);
        assert(buf@ =~= old(buf)@ + text@.subrange(a as int, i + 1));
        i += 1;
    }
    assert(buf@ =~= old(buf)@ + text@.subrange(a as int, b as int));
}

/// The number of `' '` characters at the front of `s`.
pub open spec fn leading_spaces(s: Seq<char>) -> int
    decreases s.len(),
{
    if s.len() > 0 && s[0] == ' ' {
        1 + leading_spaces(s.subrange(1, s.len() as int))
    } else {
        0
    }
}

pub proof fn lemma_leading_spaces(s: Seq<char>)
    ensures
        0 <= leading_spaces(s) <= s.len(),
        forall|j: int| 0 <= j < leading_spaces(s) ==> s[j] == ' ',
        leading_spaces(s) < s.len() ==> s[leading_spaces(s)] != ' ',
    decreases s.len(),
{
    if s.len() > 0 && s[0] == ' ' {
        let s1 = s.subrange(1, s.len() as int);
        lemma_leading_spaces(s1);
        assert forall|j: int| 0 <= j < leading_spaces(s) implies s[j] == ' ' by {
            if j > 0 {
                assert(s1[j - 1] == ' ');
            }
        }
        if leading_spaces(s) < s.len() {
            assert(s1[leading_spaces(s) - 1] == s[leading_spaces(s)]);
        }
    }
}

pub proof fn lemma_leading_spaces_agrees(s: Seq<char>, k: int)
    requires
        0 <= k <= s.len(),
        forall|j: int| 0 <= j < k ==> s[j] == ' ',
        k == s.len() || s[k] != ' ',
    ensures
        leading_spaces(s) == k,
    decreases k,
{
    if k > 0 {
        let s1 = s.subrange(1, s.len() as int);
        assert forall|j: int| 0 <= j < k - 1 implies s1[j] == ' ' by {
            assert(s1[j] == s[j + 1]);
        }
        if k - 1 < s1.len() {
            assert(s1[k - 1] == s[k as int]);
        }
        lemma_leading_spaces_agrees(s1, k - 1);
    }
}

/// Counts the spaces at the front of the range `[a, b)` of `text`, stopping
/// at `cap`; the result is exact below `cap` and means "`cap` or more" at it.
pub fn range_leading_spaces_capped(text: &Vec<char>, a: usize, b: usize, cap: usize) -> (r: usize)
    requires
        a <= b <= text@.len(),
    ensures
        r <= cap,
        r < cap ==> r == leading_spaces(text@.subrange(a as int, b as int)),
        r == cap ==> leading_spaces(text@.subrange(a as int, b as int)) >= cap,
{
    let ghost s = text@.subrange(a as int, b as int);
    let mut i: usize = 0;
    while i < cap && a + i < b && text[a + i] == ' '
        invariant
            0 <= i <= cap,
            a <= b <= text@.len(),
            i <= b - a,
            s == text@.subrange(a as int, b as int),
            forall|j: int| 0 <= j < i ==> s[j] == ' ',
        decreases cap - i,
    {
        i += 1;
    }
    proof {
        if i < cap {
            lemma_leading_spaces_agrees(s, i as int);
        } else {
            lemma_leading_spaces(s);
            if leading_spaces(s) < i {
                assert(s[leading_spaces(s)] == ' ');
            }
        }
    }
    i
}

/// `s` with white space removed from the front.
pub open spec fn trim_front(s: Seq<char>) -> Seq<char>
    decreases s.len(),
{
    if s.len() > 0 && is_ws_char(s[0]) {
        trim_front(s.subrange(1, s.len() as int))
    } else {
        s
    }
}

/// `s` with white space removed from the back.
pub open spec fn trim_back(s: Seq<char>) -> Seq<char>
    decreases s.len(),
{
    if s.len() > 0 && is_ws_char(s[s.len() - 1]) {
        trim_back(s.subrange(0, s.len() - 1))
    } else {
        s
    }
}

/// `s` with white space removed from both ends.
pub open spec fn trim_both(s: Seq<char>) -> Seq<char> {
    trim_back(trim_front(s))
}

pub proof fn lemma_trim_front_is(s: Seq<char>, k: int)
    requires
        0 <= k <= s.len(),
        forall|j: int| 0 <= j < k ==> is_ws_char(s[j]),
        k == s.len() || !is_ws_char(s[k]),
    ensures
        trim_front(s) =~= s.subrange(k, s.len() as int),
    decreases k,
{
    if k == 0 {
        assert(trim_front(s) =~= s.subrange(0, s.len() as int)) by {
            if s.len() > 0 && is_ws_char(s[0]) {
                assert(false);
            }
        }
    } else {
        let s1 = s.subrange(1, s.len() as int);
        lemma_trim_front_is(s1, k - 1);
        assert(s1.subrange(k - 1, s1.len() as int) =~= s.subrange(k, s.len() as int));
    }
}

pub proof fn lemma_trim_back_is(s: Seq<char>, k: int)
    requires
        0 <= k <= s.len(),
        forall|j: int| k <= j < s.len() ==> is_ws_char(s[j]),
        k == 0 || !is_ws_char(s[k - 1]),
    ensures
        trim_back(s) =~= s.subrange(0, k),
    decreases s.len() - k,
{
    if k == s.len() {
        if s.len() > 0 && is_ws_char(s[s.len() - 1]) {
            let s1 = s.subrange(0, s.len() - 1);
            lemma_trim_back_is(s1, k - 1);
        } else {
            assert(trim_back(s) =~= s.subrange(0, k));
        }
    } else {
        let s1 = s.subrange(0, s.len() - 1);
        lemma_trim_back_is(s1, k);
    }
}

/// Shrinks the range `[a, b)` of `text` from the back to its trimmed end.
pub fn range_trim_back(text: &Vec<char>, a: usize, b: usize) -> (hb: usize)
    requires
        a <= b <= text@.len(),
    ensures
        a <= hb <= b,
        text@.subrange(a as int, hb as int) == trim_back(text@.subrange(a as int, b as int)),
{
    let ghost s = text@.subrange(a as int, b as int);
    let mut hi: usize = b;
    while hi > a && is_ws(text[hi - 1])
        invariant
            a <= hi <= b <= text@.len(),
            s == text@.subrange(a as int, b as int),
            forall|j: int| hi - a <= j < b - a ==> is_ws_char(s[j]),
        decreases hi,
    {
        assert(s[hi - 1 - a] == text@[hi - 1]);
        hi -= 1;
    }
    proof {
        if hi > a {
            assert(s[hi - 1 - a] == text@[hi - 1]);
        }
        lemma_trim_back_is(s, hi - a);
        assert(s.subrange(0, hi - a) =~= text@.subrange(a as int, hi as int));
    }
    hi
}

/// Shrinks the range `[a, b)` of `text` to its white-space-trimmed core.
pub fn range_trim(text: &Vec<char>, a: usize, b: usize) -> (r: (usize, usize))
    requires
        a <= b <= text@.len(),
    ensures
        a <= r.0 <= r.1 <= b,
        text@.subrange(r.0 as int, r.1 as int) == trim_both(text@.subrange(a as int, b as int)),
{
    let ghost s = text@.subrange(a as int, b as int);
    let mut lo: usize = a;
    while lo < b && is_ws(text[lo])
        invariant
            a <= lo <= b <= text@.len(),
            s == text@.subrange(a as int, b as int),
            forall|j: int| 0 <= j < lo - a ==> is_ws_char(s[j]),
        decreases b - lo,
    {
        assert(s[lo - a] == text@[lo as int]);
        lo += 1;
    }
    let mut hi: usize = b;
    while hi > lo && is_ws(text[hi - 1])
        invariant
            a <= lo <= hi <= b <= text@.len(),
            s == text@.subrange(a as int, b as int),
            forall|j: int| 0 <= j < lo - a ==> is_ws_char(s[j]),
            forall|j: int| hi - a <= j < b - a ==> is_ws_char(s[j]),
        decreases hi,
    {
        assert(s[hi - 1 - a] == text@[hi - 1]);
        hi -= 1;
    }
    proof {
        lemma_trim_front_is(s, lo - a);
        let t = s.subrange(lo - a, s.len() as int);
        assert forall|j: int| hi - lo <= j < t.len() implies is_ws_char(t[j]) by {
            assert(t[j] == s[j + lo - a]);
        }
        if hi > lo {
            assert(t[hi - lo - 1] == s[hi - 1 - a]);
            assert(s[hi - 1 - a] == text@[hi - 1]);
        }
        lemma_trim_back_is(t, hi - lo);
        assert(t.subrange(0, hi - lo) =~= text@.subrange(lo as int, hi as int));
    }
    (lo, hi)
}

/// Copies the range `[a, b)` of `text` into a fresh vector.
pub fn subvec(text: &Vec<char>, a: usize, b: usize) -> (r: Vec<char>)
    requires
        a <= b <= text@.len(),
    ensures
        r@ == text@.subrange(a as int, b as int),
{
    let mut r: Vec<char> = Vec::new();
    let mut i: usize = a;
    while i < b
        invariant
            a <= i <= b <= text@.len(),
            r@ =~= text@.subrange(a as int, i as int),
        decreases b - i,
    {
        r.push(text[i]);
        assert(r@ =~= text@.subrange(a as int, i + 1));
        i += 1;
    }
    r
}

/// Relies on `str::chars`: it yields exactly the characters of the string
/// slice, in order.
#[verifier::external_body]
pub fn str_to_chars(s: &str) -> (r: Vec<char>)
    ensures
        r@ == s@,
{
    s.chars().collect()
}

/// Relies on `String`'s `FromIterator<char>` implementation: collecting
/// characters builds the string of exactly those characters, in order.
#[verifier::external_body]
pub fn chars_to_string(v: &Vec<char>) -> (r: String)
    ensures
        r@ == v@,
{
    v.iter().collect()
}

} // verus!
