//! Verified character-sequence primitives: the splitting, trimming and
//! matching operations the two platform scanners are built from. Every
//! executable function here is specified against a spec function over
//! `Seq<char>`.

use vstd::prelude::*;
use vstd::slice::slice_subrange;
use vstd::slice::slice_to_vec;

verus! {

/// The Unicode `White_Space` set, as `char::is_whitespace` recognizes it.
pub open spec fn is_space(c: char) -> bool {
    ||| c == ' '
    ||| c == '\t'
    ||| c == '\n'
    ||| c == '\u{000B}'
    ||| c == '\u{000C}'
    ||| c == '\r'
    ||| c == '\u{0085}'
    ||| c == '\u{00A0}'
    ||| c == '\u{1680}'
    ||| ('\u{2000}' <= c && c <= '\u{200A}')
    ||| c == '\u{2028}'
    ||| c == '\u{2029}'
    ||| c == '\u{202F}'
    ||| c == '\u{205F}'
    ||| c == '\u{3000}'
}

/// Decides [`is_space`].
pub fn is_space_char(c: char) -> (r: bool)
    ensures
        r == is_space(c),
{
    c == ' ' || c == '\t' || c == '\n' || c == '\u{000B}' || c == '\u{000C}' || c == '\r'
        || c == '\u{0085}' || c == '\u{00A0}' || c == '\u{1680}'
        || ('\u{2000}' <= c && c <= '\u{200A}') || c == '\u{2028}' || c == '\u{2029}'
        || c == '\u{202F}' || c == '\u{205F}' || c == '\u{3000}'
}

/// `p` is a prefix of `s`.
pub open spec fn has_prefix(s: Seq<char>, p: Seq<char>) -> bool {
    p.len() <= s.len() && s.subrange(0, p.len() as int) == p
}

/// Decides [`has_prefix`].
pub fn has_prefix_at(s: &[char], p: &[char]) -> (r: bool)
    ensures
        r == has_prefix(s@, p@),
{
    if p.len() > s.len() {
        return false;
    }
    let mut i: usize = 0;
    while i < p.len()
        invariant
            i <= p.len() <= s.len(),
            forall|j: int| 0 <= j < i ==> s@[j] == p@[j],
        decreases p.len() - i,
    {
        if s[i] != p[i] {
            assert(s@.subrange(0, p@.len() as int)[i as int] == s@[i as int]);
            return false;
        }
        i += 1;
    }
    assert(s@.subrange(0, p@.len() as int) =~= p@);
    true
}

/// The characters of `s`, in order, as a vector.
pub fn chars_of_str(s: &str) -> (r: Vec<char>)
    ensures
        r@ == s@,
{
    let n = s.unicode_len();
    let mut r: Vec<char> = Vec::new();
    let mut i: usize = 0;
    while i < n
        invariant
            i <= n == s@.len(),
            r@ == s@.subrange(0, i as int),
        decreases n - i,
    {
        r.push(s.get_char(i));
        assert(r@ =~= s@.subrange(0, i + 1 as int));
        i += 1;
    }
    assert(r@ =~= s@);
    r
}

/// Relies on `String: FromIterator<char>` (`collect`): the collected string's
/// characters are exactly the iterated characters, in order.
#[verifier::external_body]
pub fn string_of_chars(v: &[char]) -> (r: String)
    ensures
        r@ == v@,
{
    v.iter().collect()
}

/// The views of a list of character vectors.
pub open spec fn seqs_of(r: Seq<Vec<char>>) -> Seq<Seq<char>> {
    r.map_values(|x: Vec<char>| x@)
}

/// The segments of `s` between occurrences of `sep`, in order. Always at
/// least one segment; a separator at either end yields an empty segment
/// there, and `sep` itself appears in no segment.
pub open spec fn split_char(s: Seq<char>, sep: char) -> Seq<Seq<char>>
    decreases s.len(),
{
    if s.len() == 0 {
        seq![Seq::<char>::empty()]
    } else {
        let r = split_char(s.drop_last(), sep);
        if s.last() == sep {
            r.push(Seq::<char>::empty())
        } else {
            r.update(r.len() - 1, r.last().push(s.last()))
        }
    }
}

/// Computes [`split_char`].
pub fn split_char_vec(v: &[char], sep: char) -> (r: Vec<Vec<char>>)
    ensures
        seqs_of(r@) == split_char(v@, sep),
        r@.len() >= 1,
{
    let mut r: Vec<Vec<char>> = Vec::new();
    r.push(Vec::new());
    proof {
        assert(seqs_of(r@) =~= split_char(v@.subrange(0, 0), sep));
    }
    let mut i: usize = 0;
    while i < v.len()
        invariant
            i <= v@.len(),
            r@.len() >= 1,
            seqs_of(r@) == split_char(v@.subrange(0, i as int), sep),
        decreases v@.len() - i,
    {
        let ghost pre = v@.subrange(0, i as int);
        let ghost pre1 = v@.subrange(0, i + 1 as int);
        proof {
            assert(pre1.drop_last() =~= pre);
            assert(pre1.last() == v@[i as int]);
        }
        let c = v[i];
        if c == sep {
            r.push(Vec::new());
            proof {
                assert(seqs_of(r@) =~= split_char(pre, sep).push(Seq::<char>::empty()));
            }
        } else {
            let mut last = r.pop().unwrap();
            last.push(c);
            r.push(last);
            proof {
                let old_segs = split_char(pre, sep);
                assert(seqs_of(r@) =~= old_segs.update(
                    old_segs.len() - 1,
                    old_segs.last().push(v@[i as int]),
                ));
            }
        }
        i += 1;
    }
    proof {
        assert(v@.subrange(0, v@.len() as int) =~= v@);
    }
    r
}

/// `s` with leading whitespace removed.
pub open spec fn trim_start_spec(s: Seq<char>) -> Seq<char>
    decreases s.len(),
{
    if s.len() > 0 && is_space(s[0]) {
        trim_start_spec(s.drop_first())
    } else {
        s
    }
}

/// `s` with trailing whitespace removed.
pub open spec fn trim_end_spec(s: Seq<char>) -> Seq<char>
    decreases s.len(),
{
    if s.len() > 0 && is_space(s.last()) {
        trim_end_spec(s.drop_last())
    } else {
        s
    }
}

/// `s` with whitespace removed from both ends.
pub open spec fn trim_spec(s: Seq<char>) -> Seq<char> {
    trim_end_spec(trim_start_spec(s))
}

/// Computes [`trim_spec`].
pub fn trim_chars(v: &[char]) -> (r: Vec<char>)
    ensures
        r@ == trim_spec(v@),
{
    let n = v.len();
    proof {
        assert(v@.subrange(0, n as int) =~= v@);
    }
    let mut lo: usize = 0;
    while lo < n && is_space_char(v[lo])
        invariant
            lo <= n == v@.len(),
            trim_start_spec(v@) == trim_start_spec(v@.subrange(lo as int, n as int)),
        decreases n - lo,
    {
        proof {
            assert(v@.subrange(lo as int, n as int).drop_first() =~= v@.subrange(
                lo + 1 as int,
                n as int,
            ));
        }
        lo += 1;
    }
    proof {
        assert(trim_start_spec(v@) == v@.subrange(lo as int, n as int));
    }
    let mut hi: usize = n;
    while hi > lo && is_space_char(v[hi - 1])
        invariant
            lo <= hi <= n == v@.len(),
            trim_start_spec(v@) == v@.subrange(lo as int, n as int),
            trim_end_spec(v@.subrange(lo as int, n as int)) == trim_end_spec(
                v@.subrange(lo as int, hi as int),
            ),
        decreases hi,
    {
        proof {
            assert(v@.subrange(lo as int, hi as int).drop_last() =~= v@.subrange(
                lo as int,
                hi - 1 as int,
            ));
        }
        hi -= 1;
    }
    slice_to_vec(slice_subrange(v, lo, hi))
}

/// `s` with every non-overlapping occurrence of the two-character pattern
/// `a b` removed, scanning left to right.
pub open spec fn remove_pair(s: Seq<char>, a: char, b: char) -> Seq<char>
    decreases s.len(),
{
    if s.len() < 2 {
        s
    } else if s[0] == a && s[1] == b {
        remove_pair(s.subrange(2, s.len() as int), a, b)
    } else {
        seq![s[0]] + remove_pair(s.subrange(1, s.len() as int), a, b)
    }
}

/// Computes [`remove_pair`].
pub fn remove_pair_chars(v: &[char], a: char, b: char) -> (r: Vec<char>)
    ensures
        r@ == remove_pair(v@, a, b),
{
    let n = v.len();
    proof {
        assert(v@.subrange(0, n as int) =~= v@);
    }
    let mut out: Vec<char> = Vec::new();
    let mut i: usize = 0;
    while i < n
        invariant
            i <= n == v@.len(),
            remove_pair(v@, a, b) == out@ + remove_pair(v@.subrange(i as int, n as int), a, b),
        decreases n - i,
    {
        let ghost tail = v@.subrange(i as int, n as int);
        let ghost out0 = out@;
        if i + 1 < n && v[i] == a && v[i + 1] == b {
            proof {
                assert(tail.subrange(2, tail.len() as int) =~= v@.subrange(i + 2, n as int));
            }
            i += 2;
        } else {
            out.push(v[i]);
            proof {
                if tail.len() >= 2 {
                    assert(tail.subrange(1, tail.len() as int) =~= v@.subrange(i + 1, n as int));
                    assert(out@ + remove_pair(v@.subrange(i + 1, n as int), a, b) =~= out0 + (
                    seq![tail[0]] + remove_pair(tail.subrange(1, tail.len() as int), a, b)));
                } else {
                    assert(tail =~= seq![v@[i as int]]);
                    assert(v@.subrange(i + 1, n as int) =~= Seq::<char>::empty());
                    assert(out@ + remove_pair(v@.subrange(i + 1, n as int), a, b) =~= out0
                        + tail);
                }
            }
            i += 1;
        }
    }
    proof {
        assert(v@.subrange(n as int, n as int) =~= Seq::<char>::empty());
        assert(out@ + Seq::<char>::empty() =~= out@);
    }
    out
}

/// The position of the first occurrence of `p` in `s`, or `-1` if there is
/// none. The empty pattern occurs at position `0`.
pub open spec fn find_sub(s: Seq<char>, p: Seq<char>) -> int
    decreases s.len(),
{
    if p.len() > s.len() {
        -1
    } else if has_prefix(s, p) {
        0
    } else if s.len() == 0 {
        -1
    } else {
        let r = find_sub(s.drop_first(), p);
        if r < 0 {
            -1
        } else {
            r + 1
        }
    }
}

/// Everything in `s` before the first occurrence of `p`, or all of `s` if
/// `p` does not occur.
pub open spec fn before_sub(s: Seq<char>, p: Seq<char>) -> Seq<char> {
    if find_sub(s, p) < 0 {
        s
    } else {
        s.subrange(0, find_sub(s, p))
    }
}

/// Computes [`find_sub`].
pub fn find_sub_chars(v: &[char], p: &[char]) -> (r: Option<usize>)
    ensures
        match r {
            Some(k) => find_sub(v@, p@) == k as int && k <= v@.len(),
            None => find_sub(v@, p@) == -1,
        },
{
    let n = v.len();
    if p.len() > n {
        return None;
    }
    proof {
        assert(v@.subrange(0, n as int) =~= v@);
    }
    if p.len() == 0 {
        proof {
            assert(v@.subrange(0, p@.len() as int) =~= p@);
            assert(has_prefix(v@, p@));
        }
        return Some(0);
    }
    let mut i: usize = 0;
    while p.len() <= n - i
        invariant
            i <= n == v@.len(),
            0 < p@.len() <= n,
            find_sub(v@, p@) == (if find_sub(v@.subrange(i as int, n as int), p@) < 0 {
                -1int
            } else {
                i + find_sub(v@.subrange(i as int, n as int), p@)
            }),
        decreases n - i,
    {
        if has_prefix_at(slice_subrange(v, i, n), p) {
            return Some(i);
        }
        proof {
            let tail = v@.subrange(i as int, n as int);
            assert(tail.drop_first() =~= v@.subrange(i + 1, n as int));
        }
        i += 1;
    }
    None
}

/// The maximal runs of non-whitespace characters in `s`, in order; every
/// token is non-empty.
pub open spec fn split_ws(s: Seq<char>) -> Seq<Seq<char>>
    decreases s.len(),
{
    if s.len() == 0 {
        Seq::<Seq<char>>::empty()
    } else {
        let r = split_ws(s.drop_last());
        let c = s.last();
        if is_space(c) {
            r
        } else if s.len() >= 2 && !is_space(s[s.len() - 2]) {
            r.update(r.len() - 1, r.last().push(c))
        } else {
            r.push(seq![c])
        }
    }
}

/// Computes [`split_ws`].
pub fn split_ws_vec(v: &[char]) -> (r: Vec<Vec<char>>)
    ensures
        seqs_of(r@) == split_ws(v@),
{
    let n = v.len();
    let mut r: Vec<Vec<char>> = Vec::new();
    proof {
        assert(seqs_of(r@) =~= split_ws(v@.subrange(0, 0)));
    }
    let mut i: usize = 0;
    while i < n
        invariant
            i <= n == v@.len(),
            seqs_of(r@) == split_ws(v@.subrange(0, i as int)),
            (i > 0 && !is_space(v@[i - 1])) ==> r@.len() >= 1,
        decreases n - i,
    {
        let ghost pre = v@.subrange(0, i as int);
        let ghost pre1 = v@.subrange(0, i + 1 as int);
        proof {
            assert(pre1.drop_last() =~= pre);
            assert(pre1.last() == v@[i as int]);
        }
        let c = v[i];
        if is_space_char(c) {
            // the spec drops whitespace; nothing to do
        } else if i > 0 && !is_space_char(v[i - 1]) {
            let mut last = r.pop().unwrap();
            last.push(c);
            r.push(last);
            proof {
                let old_toks = split_ws(pre);
                assert(seqs_of(r@) =~= old_toks.update(
                    old_toks.len() - 1,
                    old_toks.last().push(v@[i as int]),
                ));
            }
        } else {
            let mut t: Vec<char> = Vec::new();
            t.push(c);
            r.push(t);
            proof {
                assert(seqs_of(r@) =~= split_ws(pre).push(seq![v@[i as int]]));
            }
        }
        i += 1;
    }
    proof {
        assert(v@.subrange(0, n as int) =~= v@);
    }
    r
}

/// The first element of `ls` that starts with `p`, if any.
pub open spec fn first_with_prefix(ls: Seq<Seq<char>>, p: Seq<char>) -> Option<Seq<char>>
    decreases ls.len(),
{
    if ls.len() == 0 {
        None
    } else if has_prefix(ls[0], p) {
        Some(ls[0])
    } else {
        first_with_prefix(ls.drop_first(), p)
    }
}

/// The index of the first element of `ls` that starts with `p`, if any.
pub fn first_with_prefix_vec(ls: &Vec<Vec<char>>, p: &[char]) -> (r: Option<usize>)
    ensures
        match r {
            Some(k) => k < ls@.len() && first_with_prefix(seqs_of(ls@), p@) == Some(ls@[k as int]@)
                && has_prefix(ls@[k as int]@, p@),
            None => first_with_prefix(seqs_of(ls@), p@) is None,
        },
{
    let n = ls.len();
    proof {
        assert(seqs_of(ls@).subrange(0, n as int) =~= seqs_of(ls@));
    }
    let mut i: usize = 0;
    while i < n
        invariant
            i <= n == ls@.len(),
            first_with_prefix(seqs_of(ls@), p@) == first_with_prefix(
                seqs_of(ls@).subrange(i as int, n as int),
                p@,
            ),
        decreases n - i,
    {
        if has_prefix_at(ls[i].as_slice(), p) {
            return Some(i);
        }
        proof {
            let tail = seqs_of(ls@).subrange(i as int, n as int);
            assert(tail.drop_first() =~= seqs_of(ls@).subrange(i + 1, n as int));
        }
        i += 1;
    }
    None
}

/// `l` with a single trailing carriage return removed.
pub open spec fn strip_cr(l: Seq<char>) -> Seq<char> {
    if l.len() > 0 && l.last() == '\r' {
        l.drop_last()
    } else {
        l
    }
}

/// The lines of `s`, as `str::lines` yields them: the segments between
/// newlines, each segment that stood before a newline with one trailing
/// carriage return removed, and a final empty segment dropped.
pub open spec fn spec_lines(s: Seq<char>) -> Seq<Seq<char>> {
    let parts = split_char(s, '\n');
    let body = parts.drop_last().map_values(|l: Seq<char>| strip_cr(l));
    if parts.last().len() == 0 {
        body
    } else {
        body.push(parts.last())
    }
}

/// Computes [`spec_lines`].
pub fn lines_vec(v: &[char]) -> (r: Vec<Vec<char>>)
    ensures
        seqs_of(r@) == spec_lines(v@),
{
    let mut parts = split_char_vec(v, '\n');
    let ghost parts0 = seqs_of(parts@);
    let last = parts.pop().unwrap();
    proof {
        assert(last@ == parts0.last());
        assert(seqs_of(parts@) =~= parts0.drop_last());
    }
    let ghost body_src = parts0.drop_last();
    let n = parts.len();
    let mut out: Vec<Vec<char>> = Vec::new();
    let mut j: usize = 0;
    while j < n
        invariant
            j <= n == parts@.len(),
            body_src == seqs_of(parts@),
            out@.len() == j,
            forall|k: int| 0 <= k < j ==> out@[k]@ == strip_cr(body_src[k]),
        decreases n - j,
    {
        let l = &parts[j];
        let m = l.len();
        proof {
            assert(body_src[j as int] == parts@[j as int]@);
        }
        if m > 0 && l[m - 1] == '\r' {
            out.push(slice_to_vec(slice_subrange(l.as_slice(), 0, m - 1)));
            proof {
                assert(out@[j as int]@ =~= strip_cr(body_src[j as int]));
            }
        } else {
            out.push(slice_to_vec(l.as_slice()));
        }
        j += 1;
    }
    if last.len() > 0 {
        out.push(last);
    }
    proof {
        assert(seqs_of(out@) =~= spec_lines(v@));
    }
    out
}

/// The numeric value of `c` with an upper-case ASCII letter folded to its
/// lower-case form.
pub open spec fn lower32(c: char) -> u32 {
    if 65 <= c as u32 && c as u32 <= 90 {
        ((c as u32) + 32) as u32
    } else {
        c as u32
    }
}

/// `c` and `d` are equal up to ASCII case.
pub open spec fn eq_nocase_char(c: char, d: char) -> bool {
    lower32(c) == lower32(d)
}

/// `w` occurs in `s` at position `k`, up to ASCII case.
pub open spec fn matches_nocase_at(s: Seq<char>, w: Seq<char>, k: int) -> bool {
    forall|j: int| 0 <= j < w.len() ==> eq_nocase_char(s[k + j], w[j])
}

/// `w` occurs somewhere in `s`, up to ASCII case.
pub open spec fn contains_nocase(s: Seq<char>, w: Seq<char>) -> bool {
    exists|k: int| 0 <= k && k + w.len() <= s.len() && matches_nocase_at(s, w, k)
}

/// Decides [`eq_nocase_char`].
fn eq_nocase(c: char, d: char) -> (r: bool)
    ensures
        r == eq_nocase_char(c, d),
{
    let cu = c as u32;
    let du = d as u32;
    let cl = if 65 <= cu && cu <= 90 {
        cu + 32
    } else {
        cu
    };
    let dl = if 65 <= du && du <= 90 {
        du + 32
    } else {
        du
    };
    cl == dl
}

/// Decides [`matches_nocase_at`].
fn matches_nocase(s: &[char], w: &[char], k: usize) -> (r: bool)
    requires
        k + w@.len() <= s@.len(),
    ensures
        r == matches_nocase_at(s@, w@, k as int),
{
    let sn = s.len();
    let mut j: usize = 0;
    while j < w.len()
        invariant
            j <= w@.len(),
            k + w@.len() <= s@.len() == sn,
            forall|j2: int| 0 <= j2 < j ==> eq_nocase_char(s@[k + j2], w@[j2]),
        decreases w@.len() - j,
    {
        if !eq_nocase(s[k + j], w[j]) {
            assert(!eq_nocase_char(s@[k as int + j as int], w@[j as int]));
            return false;
        }
        j += 1;
    }
    true
}

/// Decides [`contains_nocase`].
pub fn contains_nocase_chars(s: &[char], w: &[char]) -> (r: bool)
    ensures
        r == contains_nocase(s@, w@),
{
    let n = s.len();
    let m = w.len();
    if m > n {
        return false;
    }
    let mut k: usize = 0;
    while m <= n - k
        invariant
            k <= n == s@.len(),
            m == w@.len() <= n,
            forall|k2: int| 0 <= k2 < k ==> !matches_nocase_at(s@, w@, k2),
        decreases n - k,
    {
        if matches_nocase(s, w, k) {
            assert(contains_nocase(s@, w@));
            return true;
        }
        k += 1;
    }
    false
}

/// Decides equality of two character slices.
pub fn eq_chars(a: &[char], b: &[char]) -> (r: bool)
    ensures
        r == (a@ == b@),
{
    if a.len() != b.len() {
        return false;
    }
    let mut i: usize = 0;
    while i < a.len()
        invariant
            i <= a@.len() == b@.len(),
            forall|j: int| 0 <= j < i ==> a@[j] == b@[j],
        decreases a@.len() - i,
    {
        if a[i] != b[i] {
            return false;
        }
        i += 1;
    }
    proof {
        assert(a@ =~= b@);
    }
    true
}

} // verus!
