//! Extracting the version token from a heading's text: an optional leading
//! link bracket and a matched prefix are dropped, the first
//! whitespace-delimited token is kept, and one link wrapper is removed from
//! that token.

use vstd::prelude::*;

use crate::chars::{chars_to_string, is_ws, is_ws_char, str_to_chars, subvec};
use crate::pattern::{regex_find_end, Pattern};
use crate::unlink::{spec_unlink, unlink_range};

verus! {

/// The position of the first white-space character of `s`, or its length.
pub open spec fn first_ws(s: Seq<char>) -> int
    decreases s.len(),
{
    if s.len() == 0 {
        0
    } else if is_ws_char(s[0]) {
        0
    } else {
        1 + first_ws(s.skip(1))
    }
}

pub proof fn lemma_first_ws(s: Seq<char>)
    ensures
        0 <= first_ws(s) <= s.len(),
        forall|j: int| 0 <= j < first_ws(s) ==> !is_ws_char(s[j]),
        first_ws(s) < s.len() ==> is_ws_char(s[first_ws(s)]),
    decreases s.len(),
{
    if s.len() > 0 && !is_ws_char(s[0]) {
        let s1 = s.skip(1);
        lemma_first_ws(s1);
        assert forall|j: int| 0 <= j < first_ws(s) implies !is_ws_char(s[j]) by {
            if j > 0 {
                assert(s1[j - 1] == s[j]);
            }
        }
        if first_ws(s) < s.len() {
            assert(s1[first_ws(s) - 1] == s[first_ws(s)]);
        }
    }
}

pub proof fn lemma_first_ws_agrees(s: Seq<char>, k: int)
    requires
        0 <= k <= s.len(),
        forall|j: int| 0 <= j < k ==> !is_ws_char(s[j]),
        k == s.len() || is_ws_char(s[k]),
    ensures
        first_ws(s) == k,
    decreases k,
{
    if k > 0 {
        let s1 = s.skip(1);
        assert forall|j: int| 0 <= j < k - 1 implies !is_ws_char(s1[j]) by {
            assert(s1[j] == s[j + 1]);
        }
        if k - 1 < s1.len() {
            assert(s1[k - 1] == s[k as int]);
        }
        lemma_first_ws_agrees(s1, k - 1);
    }
}

/// Finds the first white-space character within the range `[a, b)` of
/// `text`; the result is an absolute position in `text`.
fn range_first_ws(text: &Vec<char>, a: usize, b: usize) -> (w: usize)
    requires
        a <= b <= text@.len(),
    ensures
        a <= w <= b,
        w - a == first_ws(text@.subrange(a as int, b as int)),
{
    let ghost s = text@.subrange(a as int, b as int);
    let mut i: usize = a;
    while i < b && !is_ws(text[i])
        invariant
            a <= i <= b <= text@.len(),
            s == text@.subrange(a as int, b as int),
            forall|j: int| 0 <= j < i - a ==> !is_ws_char(s[j]),
        decreases b - i,
    {
        assert(s[i - a] == text@[i as int]);
        i += 1;
    }
    proof {
        if i < b {
            assert(s[i - a] == text@[i as int]);
        }
        lemma_first_ws_agrees(s, i - a);
    }
    i
}

/// The version token of a heading's text, and the remainder after it.
///
/// A leading `[` is dropped; a prefix match of `ppat` is dropped; the rest
/// is cut at its first white-space character; one link wrapper is removed
/// from that token. The first component is the candidate version.
pub open spec fn spec_extract(text: Seq<char>, ppat: Seq<char>) -> (Seq<char>, Seq<char>) {
    let t1 = if text.len() > 0 && text[0] == '[' {
        text.skip(1)
    } else {
        text
    };
    let t2 = match regex_find_end(ppat, t1) {
        Some(e) => if 0 <= e <= t1.len() {
            t1.skip(e)
        } else {
            t1
        },
        None => t1,
    };
    spec_unlink(t2.take(first_ws(t2)))
}

/// Extracts the version token from the range `[a, b)` of `text`. Returns
/// `(v0, v1, r0, w)`: the token is the range `[v0, v1)` and the remainder
/// after its link wrapper is the range `[r0, w)`.
pub(crate) fn extract_range(text: &Vec<char>, a: usize, b: usize, prefix: &Pattern) -> (r: (
    usize,
    usize,
    usize,
    usize,
))
    requires
        a <= b <= text@.len(),
    ensures
        a <= r.0 <= r.1 <= b,
        a <= r.2 <= r.3 <= b,
        spec_extract(text@.subrange(a as int, b as int), prefix.src()) == (
            text@.subrange(r.0 as int, r.1 as int),
            text@.subrange(r.2 as int, r.3 as int),
        ),
{
    let ghost s = text@.subrange(a as int, b as int);
    let a1: usize = if a < b && text[a] == '[' {
        a + 1
    } else {
        a
    };
    let ghost t1 = text@.subrange(a1 as int, b as int);
    proof {
        assert(t1 =~= if s.len() > 0 && s[0] == '[' {
            s.skip(1)
        } else {
            s
        });
    }
    let t1v = subvec(text, a1, b);
    let a2: usize = match prefix.find_end(&t1v) {
        Some(e) => a1 + e,
        None => a1,
    };
    let ghost t2 = text@.subrange(a2 as int, b as int);
    proof {
        assert(t2 =~= match regex_find_end(prefix.src(), t1) {
            Some(e) => if 0 <= e <= t1.len() {
                t1.skip(e)
            } else {
                t1
            },
            None => t1,
        });
    }
    let w = range_first_ws(text, a2, b);
    proof {
        assert(text@.subrange(a2 as int, w as int) =~= t2.take(first_ws(t2)));
    }
    let (v0, v1, r0) = unlink_range(text, a2, w);
    (v0, v1, r0, w)
}

/// Extracts the version token from a heading title, under the given prefix
/// format: the token itself, and what follows its link wrapper.
pub fn extract_version_from_title(text: &str, prefix: &Pattern) -> (r: (String, String))
    ensures
        (r.0@, r.1@) == spec_extract(text@, prefix.src()),
{
    let v = str_to_chars(text);
    let n = v.len();
    proof {
        assert(v@.subrange(0, v@.len() as int) =~= v@);
    }
    let (v0, v1, r0, w) = extract_range(&v, 0, n, prefix);
    let ver = subvec(&v, v0, v1);
    let rest = subvec(&v, r0, w);
    (chars_to_string(&ver), chars_to_string(&rest))
}

} // verus!
