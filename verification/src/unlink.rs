//! Removing markdown link wrappers — `[text]`, `[text](url)`, `[text][ref]` —
//! from a string, keeping the inner text and whatever follows the link.

use vstd::prelude::*;

use crate::chars::{
    chars_to_string, find_char_from, lemma_find_char_from, push_range, range_find_char, str_to_chars,
    subvec,
};

verus! {

/// One link removed from the front of `s`: the inner text of the link and
/// the remainder after the link.
///
/// An optional leading `[` is dropped; the inner text runs to the first `]`.
/// A `(…)` or `[…]` group immediately after that `]` is dropped as the link
/// target. Without any `]`, the whole string is the inner text. The
/// remainder is what follows the link.
pub open spec fn spec_unlink(s: Seq<char>) -> (Seq<char>, Seq<char>) {
    let t = if s.len() > 0 && s[0] == '[' {
        s.skip(1)
    } else {
        s
    };
    match find_char_from(t, ']', 0) {
        None => (t, Seq::<char>::empty()),
        Some(pos) => {
            if pos + 1 == t.len() {
                (t.take(pos), Seq::<char>::empty())
            } else {
                let remaining = t.skip(pos + 1);
                if remaining[0] == '(' && find_char_from(remaining, ')', 1) is Some {
                    (t.take(pos), remaining.skip(find_char_from(remaining, ')', 1)->0 + 1))
                } else if remaining[0] == '[' && find_char_from(remaining, ']', 1) is Some {
                    (t.take(pos), remaining.skip(find_char_from(remaining, ']', 1)->0 + 1))
                } else {
                    (t.take(pos), remaining)
                }
            }
        },
    }
}

/// The remainder that `spec_unlink` leaves is strictly shorter than a
/// non-empty input.
pub proof fn lemma_unlink_remainder_len(s: Seq<char>)
    requires
        s.len() > 0,
    ensures
        spec_unlink(s).1.len() < s.len(),
{
    let t = if s.len() > 0 && s[0] == '[' {
        s.skip(1)
    } else {
        s
    };
    match find_char_from(t, ']', 0) {
        None => {},
        Some(pos) => {
            lemma_find_char_from(t, ']', 0);
            if pos + 1 != t.len() {
                let remaining = t.skip(pos + 1);
                if remaining[0] == '(' && find_char_from(remaining, ')', 1) is Some {
                    lemma_find_char_from(remaining, ')', 1);
                } else if remaining[0] == '[' && find_char_from(remaining, ']', 1) is Some {
                    lemma_find_char_from(remaining, ']', 1);
                }
            }
        },
    }
}

/// Removes one link from the front of the range `[a, b)` of `text`.
/// Returns the inner text as the range `[v0, v1)` and the remainder as the
/// range `[r0, b)`.
pub fn unlink_range(text: &Vec<char>, a: usize, b: usize) -> (r: (usize, usize, usize))
    requires
        a <= b <= text@.len(),
    ensures
        a <= r.0 <= r.1 <= b,
        a <= r.2 <= b,
        spec_unlink(text@.subrange(a as int, b as int)) == (
            text@.subrange(r.0 as int, r.1 as int),
            text@.subrange(r.2 as int, b as int),
        ),
{
    let ghost s = text@.subrange(a as int, b as int);
    let a1: usize = if a < b && text[a] == '[' {
        a + 1
    } else {
        a
    };
    let ghost t = text@.subrange(a1 as int, b as int);
    proof {
        assert(t =~= if s.len() > 0 && s[0] == '[' {
            s.skip(1)
        } else {
            s
        });
    }
    match range_find_char(text, a1, b, ']', 0) {
        None => {
            proof {
                assert(t.take(t.len() as int) =~= t);
                assert(text@.subrange(b as int, b as int) =~= Seq::<char>::empty());
            }
            (a1, b, b)
        },
        Some(pos) => {
            proof {
                lemma_find_char_from(t, ']', 0);
                assert(text@.subrange(a1 as int, a1 + pos) =~= t.take(pos as int));
            }
            if a1 + pos + 1 == b {
                proof {
                    assert(text@.subrange(b as int, b as int) =~= Seq::<char>::empty());
                }
                (a1, a1 + pos, b)
            } else {
                let rem0: usize = a1 + pos + 1;
                let ghost remaining = t.skip(pos + 1);
                proof {
                    assert(remaining =~= text@.subrange(rem0 as int, b as int));
                    assert(remaining[0] == text@[rem0 as int]);
                }
                let first = text[rem0];
                if first == '(' {
                    if let Some(rp) = range_find_char(text, rem0, b, ')', 1) {
                        proof {
                            lemma_find_char_from(remaining, ')', 1);
                            assert(remaining.skip(rp + 1) =~= text@.subrange(
                                rem0 + rp + 1,
                                b as int,
                            ));
                        }
                        return (a1, a1 + pos, rem0 + rp + 1);
                    }
                } else if first == '[' {
                    if let Some(rp) = range_find_char(text, rem0, b, ']', 1) {
                        proof {
                            lemma_find_char_from(remaining, ']', 1);
                            assert(remaining.skip(rp + 1) =~= text@.subrange(
                                rem0 + rp + 1,
                                b as int,
                            ));
                        }
                        return (a1, a1 + pos, rem0 + rp + 1);
                    }
                }
                (a1, a1 + pos, rem0)
            }
        },
    }
}

/// Every link removed from `s`: at each `[` a link is unwrapped, and the
/// literal spans between links are kept.
pub open spec fn spec_full_unlink(s: Seq<char>) -> Seq<char>
    decreases s.len(),
    via spec_full_unlink_decreases
{
    match find_char_from(s, '[', 0) {
        None => s,
        Some(pos) => {
            let (inner, rest) = spec_unlink(s.skip(pos));
            s.take(pos) + inner + spec_full_unlink(rest)
        },
    }
}

#[via_fn]
proof fn spec_full_unlink_decreases(s: Seq<char>) {
    match find_char_from(s, '[', 0) {
        None => {},
        Some(pos) => {
            lemma_find_char_from(s, '[', 0);
            lemma_unlink_remainder_len(s.skip(pos));
        },
    }
}

/// Removes every link from the range `[a, b)` of `text`, appending the
/// de-linked text to a fresh vector.
pub fn full_unlink_range(text: &Vec<char>, a: usize, b: usize) -> (r: Vec<char>)
    requires
        a <= b <= text@.len(),
    ensures
        r@ == spec_full_unlink(text@.subrange(a as int, b as int)),
{
    let mut buf: Vec<char> = Vec::new();
    let mut cur: usize = a;
    loop
        invariant
            a <= cur <= b <= text@.len(),
            buf@ + spec_full_unlink(text@.subrange(cur as int, b as int)) == spec_full_unlink(
                text@.subrange(a as int, b as int),
            ),
        decreases b - cur,
    {
        let ghost s = text@.subrange(cur as int, b as int);
        match range_find_char(text, cur, b, '[', 0) {
            None => {
                push_range(&mut buf, text, cur, b);
                proof {
                    assert(buf@ =~= spec_full_unlink(text@.subrange(a as int, b as int)));
                }
                return buf;
            },
            Some(pos) => {
                proof {
                    lemma_find_char_from(s, '[', 0);
                }
                push_range(&mut buf, text, cur, cur + pos);
                let (v0, v1, r0) = unlink_range(text, cur + pos, b);
                push_range(&mut buf, text, v0, v1);
                proof {
                    lemma_unlink_remainder_len(s.skip(pos as int));
                    assert(s.skip(pos as int) =~= text@.subrange(cur + pos, b as int));
                    assert(s.take(pos as int) =~= text@.subrange(cur as int, cur + pos));
                }
                let old_cur = cur;
                cur = r0;
                proof {
                    let s_old = text@.subrange(old_cur as int, b as int);
                    let s_new = text@.subrange(cur as int, b as int);
                    assert(spec_unlink(s_old.skip(pos as int)).1 == s_new);
                    assert(s_new.len() < s_old.skip(pos as int).len());
                    assert(spec_full_unlink(s_old) == s_old.take(pos as int) + spec_unlink(
                        s_old.skip(pos as int),
                    ).0 + spec_full_unlink(s_new));
                }
            },
        }
    }
}

/// Removes one markdown link wrapper from the front of `s`, returning the
/// inner text and the remainder after the link.
pub fn unlink(s: &str) -> (r: (String, String))
    ensures
        (r.0@, r.1@) == spec_unlink(s@),
{
    let v = str_to_chars(s);
    let n = v.len();
    let (v0, v1, r0) = unlink_range(&v, 0, n);
    proof {
        assert(v@.subrange(0, v@.len() as int) =~= v@);
    }
    let inner = subvec(&v, v0, v1);
    let rest = subvec(&v, r0, n);
    (chars_to_string(&inner), chars_to_string(&rest))
}

/// Removes every markdown link wrapper from `s`.
pub fn full_unlink(s: &str) -> (r: String)
    ensures
        r@ == spec_full_unlink(s@),
{
    let v = str_to_chars(s);
    let n = v.len();
    let buf = full_unlink_range(&v, 0, n);
    proof {
        assert(v@.subrange(0, v@.len() as int) =~= v@);
    }
    chars_to_string(&buf)
}

} // verus!
