//! Rough formatting of the code inside macro invocations in generated
//! source text: within the parentheses of a `!(...)` call, the spacing that
//! a pretty-printer leaves around `::` and angle brackets is tightened.

use vstd::prelude::*;

verus! {

/// Whether `pat` occurs in `s` starting at position `i`.
pub open spec fn bytes_match_at(s: Seq<u8>, pat: Seq<u8>, i: int) -> bool {
    &&& 0 <= i
    &&& i + pat.len() <= s.len()
    &&& forall|k: int| 0 <= k < pat.len() ==> s[i + k] == pat[k]
}

/// One in-place replacement attempt at position `i`: when `needle` occurs
/// there it is replaced by `with` and the cursor moves to the last
/// character of the replacement; otherwise nothing changes.
pub open spec fn spec_replace_at(s: Seq<u8>, i: int, needle: Seq<u8>, with: Seq<u8>) -> (
    Seq<u8>,
    int,
) {
    if bytes_match_at(s, needle, i) {
        (s.take(i) + with + s.skip(i + needle.len()), i + with.len() - 1)
    } else {
        (s, i)
    }
}

pub open spec fn crate_spaced() -> Seq<u8> {
    seq![('c' as u8), ('r' as u8), ('a' as u8), ('t' as u8), ('e' as u8), (' ' as u8), (':' as u8), (':' as u8)]
}

pub open spec fn crate_tight() -> Seq<u8> {
    seq![('c' as u8), ('r' as u8), ('a' as u8), ('t' as u8), ('e' as u8), (':' as u8), (':' as u8)]
}

pub open spec fn lt_spaced() -> Seq<u8> {
    seq![(' ' as u8), ('<' as u8), (' ' as u8)]
}

pub open spec fn lt_tight() -> Seq<u8> {
    seq![('<' as u8)]
}

pub open spec fn gt_spaced() -> Seq<u8> {
    seq![(' ' as u8), ('>' as u8)]
}

pub open spec fn gt_tight() -> Seq<u8> {
    seq![('>' as u8)]
}

proof fn lemma_replace_measure(s: Seq<u8>, i: int, needle: Seq<u8>, with: Seq<u8>)
    requires
        0 <= i,
        1 <= with.len() < needle.len(),
    ensures
        ({
            let (s2, i2) = spec_replace_at(s, i, needle, with);
            &&& i <= i2
            &&& s2.len() - i2 <= s.len() - i
            &&& i < s.len() ==> i2 < s2.len()
        }),
{
}

/// The state of the scan: outside any macro call, or inside one with a
/// nesting count of inner parentheses.
pub open spec fn spec_fmt(s: Seq<u8>, i: int, inside: Option<int>) -> Seq<u8>
    decreases
            s.len() - i + 1,
            (match inside {
                Some(_) => 1int,
                None => 0int,
            }),
    via spec_fmt_decreases
{
    if i < 0 || i >= s.len() {
        s
    } else {
        match inside {
            None => {
                if bytes_match_at(s, seq![('!' as u8), ('(' as u8)], i) {
                    spec_fmt(s, i + 2, Some(0))
                } else {
                    spec_fmt(s, i + 1, None)
                }
            },
            Some(count) => {
                if s[i] == ('(' as u8) {
                    spec_fmt(s, i + 1, Some(count + 1))
                } else if s[i] == (')' as u8) {
                    if count == 0 {
                        spec_fmt(s, i, None)
                    } else {
                        spec_fmt(s, i + 1, Some(count - 1))
                    }
                } else {
                    let (s1, i1) = spec_replace_at(s, i, crate_spaced(), crate_tight());
                    let (s2, i2) = spec_replace_at(s1, i1, lt_spaced(), lt_tight());
                    let (s3, i3) = spec_replace_at(s2, i2, gt_spaced(), gt_tight());
                    spec_fmt(s3, i3 + 1, Some(count))
                }
            },
        }
    }
}

#[via_fn]
proof fn spec_fmt_decreases(s: Seq<u8>, i: int, inside: Option<int>) {
    if 0 <= i < s.len() {
        match inside {
            None => {},
            Some(_) => {
                if s[i] != ('(' as u8) && s[i] != (')' as u8) {
                    let (s1, i1) = spec_replace_at(s, i, crate_spaced(), crate_tight());
                    lemma_replace_measure(s, i, crate_spaced(), crate_tight());
                    let (s2, i2) = spec_replace_at(s1, i1, lt_spaced(), lt_tight());
                    lemma_replace_measure(s1, i1, lt_spaced(), lt_tight());
                    let (s3, i3) = spec_replace_at(s2, i2, gt_spaced(), gt_tight());
                    lemma_replace_measure(s2, i2, gt_spaced(), gt_tight());
                }
            },
        }
    }
}

/// The text with the spacing inside every `!(...)` call tightened.
pub open spec fn spec_format_macros(s: Seq<u8>) -> Seq<u8> {
    spec_fmt(s, 0, None)
}

/// Checks whether `pat` occurs in `bytes` at position `i`.
fn bytes_match_at_exec(bytes: &Vec<u8>, pat: &Vec<u8>, i: usize) -> (r: bool)
    ensures
        r == bytes_match_at(bytes@, pat@, i as int),
{
    let n = bytes.len();
    let m = pat.len();
    if i > n || m > n - i {
        return false;
    }
    let mut k: usize = 0;
    while k < m
        invariant
            0 <= k <= m,
            m == pat@.len(),
            i + m <= n,
            n == bytes@.len(),
            forall|j: int| 0 <= j < k ==> bytes@[i + j] == pat@[j],
        decreases m - k,
    {
        if bytes[i + k] != pat[k] {
            assert(!bytes_match_at(bytes@, pat@, i as int)) by {
                assert(bytes@[i + k as int] != pat@[k as int]);
            }
            return false;
        }
        k += 1;
    }
    true
}

/// Replaces `needle` by `with` at position `i` where it matches; the result
/// is the cursor after the attempt.
fn replace_at(bytes: &mut Vec<u8>, i: usize, needle: &Vec<u8>, with: &Vec<u8>) -> (r: usize)
    requires
        i < old(bytes)@.len(),
        1 <= with@.len() < needle@.len(),
    ensures
        (final(bytes)@, r as int) == spec_replace_at(old(bytes)@, i as int, needle@, with@),
        i <= r < final(bytes)@.len(),
        final(bytes)@.len() - r <= old(bytes)@.len() - i,
{
    proof {
        lemma_replace_measure(bytes@, i as int, needle@, with@);
    }
    if !bytes_match_at_exec(bytes, needle, i) {
        return i;
    }
    let mut out: Vec<u8> = Vec::new();
    let mut k: usize = 0;
    while k < i
        invariant
            0 <= k <= i,
            i + needle@.len() <= bytes@.len(),
            out@ =~= bytes@.subrange(0, k as int),
        decreases i - k,
    {
        out.push(bytes[k]);
        assert(out@ =~= bytes@.subrange(0, k + 1));
        k += 1;
    }
    let mut k: usize = 0;
    let wn = with.len();
    while k < wn
        invariant
            0 <= k <= wn,
            wn == with@.len(),
            i + needle@.len() <= bytes@.len(),
            out@ =~= bytes@.subrange(0, i as int) + with@.subrange(0, k as int),
        decreases wn - k,
    {
        out.push(with[k]);
        assert(out@ =~= bytes@.subrange(0, i as int) + with@.subrange(0, k + 1));
        k += 1;
    }
    let n = bytes.len();
    proof {
        assert(i + needle@.len() <= bytes@.len());
    }
    let mut k: usize = i + needle.len();
    while k < n
        invariant
            i + needle@.len() <= k <= n,
            n == bytes@.len(),
            out@ =~= bytes@.subrange(0, i as int) + with@ + bytes@.subrange(
                i + needle@.len(),
                k as int,
            ),
        decreases n - k,
    {
        out.push(bytes[k]);
        assert(out@ =~= bytes@.subrange(0, i as int) + with@ + bytes@.subrange(
            i + needle@.len(),
            k + 1,
        ));
        k += 1;
    }
    proof {
        assert(out@ =~= bytes@.take(i as int) + with@ + bytes@.skip(i + needle@.len()));
    }
    *bytes = out;
    i + wn - 1
}

fn make_crate_spaced() -> (v: Vec<u8>)
    ensures
        v@ == crate_spaced(),
{
    let mut v: Vec<u8> = Vec::new();
    v.push(('c' as u8));
    v.push(('r' as u8));
    v.push(('a' as u8));
    v.push(('t' as u8));
    v.push(('e' as u8));
    v.push((' ' as u8));
    v.push((':' as u8));
    v.push((':' as u8));
    proof {
        assert(v@ =~= crate_spaced());
    }
    v
}

fn make_crate_tight() -> (v: Vec<u8>)
    ensures
        v@ == crate_tight(),
{
    let mut v: Vec<u8> = Vec::new();
    v.push(('c' as u8));
    v.push(('r' as u8));
    v.push(('a' as u8));
    v.push(('t' as u8));
    v.push(('e' as u8));
    v.push((':' as u8));
    v.push((':' as u8));
    proof {
        assert(v@ =~= crate_tight());
    }
    v
}

fn make_two(a: u8, b: u8) -> (v: Vec<u8>)
    ensures
        v@ == seq![a, b],
{
    let mut v: Vec<u8> = Vec::new();
    v.push(a);
    v.push(b);
    proof {
        assert(v@ =~= seq![a, b]);
    }
    v
}

fn make_three(a: u8, b: u8, c: u8) -> (v: Vec<u8>)
    ensures
        v@ == seq![a, b, c],
{
    let mut v: Vec<u8> = Vec::new();
    v.push(a);
    v.push(b);
    v.push(c);
    proof {
        assert(v@ =~= seq![a, b, c]);
    }
    v
}

fn make_one(a: u8) -> (v: Vec<u8>)
    ensures
        v@ == seq![a],
{
    let mut v: Vec<u8> = Vec::new();
    v.push(a);
    proof {
        assert(v@ =~= seq![a]);
    }
    v
}

/// Roughly formats the code inside macro calls: within each `!(...)`, the
/// spacing a pretty-printer leaves in `crate ::`, ` < ` and ` >` is
/// tightened.
pub fn format_macros(bytes: &mut Vec<u8>)
    ensures
        final(bytes)@ == spec_format_macros(old(bytes)@),
{
    let bang = make_two(('!' as u8), ('(' as u8));
    let c_spaced = make_crate_spaced();
    let c_tight = make_crate_tight();
    let l_spaced = make_three((' ' as u8), ('<' as u8), (' ' as u8));
    let l_tight = make_one(('<' as u8));
    let g_spaced = make_two((' ' as u8), ('>' as u8));
    let g_tight = make_one(('>' as u8));
    let mut i: usize = 0;
    loop
        invariant
            i <= bytes@.len(),
            bang@ == seq![('!' as u8), ('(' as u8)],
            c_spaced@ == crate_spaced(),
            c_tight@ == crate_tight(),
            l_spaced@ == lt_spaced(),
            l_tight@ == lt_tight(),
            g_spaced@ == gt_spaced(),
            g_tight@ == gt_tight(),
            spec_fmt(bytes@, i as int, None) == spec_format_macros(old(bytes)@),
        ensures
            bytes@ == spec_format_macros(old(bytes)@),
        decreases bytes@.len() - i,
    {
        if i >= bytes.len() {
            break ;
        }
        if bytes_match_at_exec(bytes, &bang, i) {
            i += 2;
            let ghost m0: int = bytes@.len() - i;
            let mut count: usize = 0;
            loop
                invariant
                    i <= bytes@.len(),
                    bytes@.len() - i <= m0,
                    c_spaced@ == crate_spaced(),
                    c_tight@ == crate_tight(),
                    l_spaced@ == lt_spaced(),
                    l_tight@ == lt_tight(),
                    g_spaced@ == gt_spaced(),
                    g_tight@ == gt_tight(),
                    count <= i,
                    spec_fmt(bytes@, i as int, Some(count as int)) == spec_format_macros(
                        old(bytes)@,
                    ),
                ensures
                    i <= bytes@.len(),
                    bytes@.len() - i <= m0,
                    spec_fmt(bytes@, i as int, None) == spec_format_macros(old(bytes)@),
                decreases bytes@.len() - i,
            {
                if i >= bytes.len() {
                    break ;
                }
                let b = bytes[i];
                if b == ('(' as u8) {
                    count += 1;
                    i += 1;
                } else if b == (')' as u8) {
                    if count == 0 {
                        break ;
                    }
                    count -= 1;
                    i += 1;
                } else {
                    i = replace_at(bytes, i, &c_spaced, &c_tight);
                    i = replace_at(bytes, i, &l_spaced, &l_tight);
                    i = replace_at(bytes, i, &g_spaced, &g_tight);
                    i += 1;
                }
            }
        } else {
            i += 1;
        }
    }
}

} // verus!
