//! Verified character-level string helpers.
//!
//! The interpreter compares, searches and slices words constantly; these
//! small functions give those operations exact character-sequence
//! contracts.

use vstd::prelude::*;

verus! {

/// Exact equality of two string slices.
pub fn str_eq(a: &str, b: &str) -> (r: bool)
    ensures
        r == (a@ == b@),
{
    let n = a.unicode_len();
    let m = b.unicode_len();
    if n != m {
        return false;
    }
    let mut i: usize = 0;
    while i < n
        invariant
            0 <= i <= n,
            n == a@.len(),
            n == b@.len(),
            forall|j: int| 0 <= j < i ==> a@[j] == b@[j],
        decreases n - i,
    {
        if a.get_char(i) != b.get_char(i) {
            return false;
        }
        i = i + 1;
    }
    proof {
        assert(a@ =~= b@);
    }
    true
}

/// `a` begins with `b`.
pub open spec fn spec_starts_with(a: Seq<char>, b: Seq<char>) -> bool {
    a.len() >= b.len() && a.take(b.len() as int) == b
}

/// `a` ends with `b`.
pub open spec fn spec_ends_with(a: Seq<char>, b: Seq<char>) -> bool {
    a.len() >= b.len() && a.skip(a.len() - b.len()) == b
}

/// `b` occurs somewhere inside `a`.
pub open spec fn spec_contains(a: Seq<char>, b: Seq<char>) -> bool {
    exists|o: int|
        0 <= o <= a.len() - b.len() && #[trigger] a.subrange(o, o + b.len() as int) == b
}

/// Does `a` begin with `b`?
pub fn str_starts_with(a: &str, b: &str) -> (r: bool)
    ensures
        r == spec_starts_with(a@, b@),
{
    let n = a.unicode_len();
    let m = b.unicode_len();
    if m > n {
        return false;
    }
    let mut i: usize = 0;
    while i < m
        invariant
            0 <= i <= m,
            m <= n,
            n == a@.len(),
            m == b@.len(),
            forall|j: int| 0 <= j < i ==> a@[j] == b@[j],
        decreases m - i,
    {
        if a.get_char(i) != b.get_char(i) {
            proof {
                if spec_starts_with(a@, b@) {
                    assert(a@.take(m as int)[i as int] == a@[i as int]);
                }
            }
            return false;
        }
        i = i + 1;
    }
    proof {
        assert(a@.take(m as int) =~= b@);
    }
    true
}

/// Does `a` end with `b`?
pub fn str_ends_with(a: &str, b: &str) -> (r: bool)
    ensures
        r == spec_ends_with(a@, b@),
{
    let n = a.unicode_len();
    let m = b.unicode_len();
    if m > n {
        return false;
    }
    let mut i: usize = 0;
    while i < m
        invariant
            0 <= i <= m,
            m <= n,
            n == a@.len(),
            m == b@.len(),
            forall|j: int| 0 <= j < i ==> a@[n - m + j] == b@[j],
        decreases m - i,
    {
        if a.get_char(n - m + i) != b.get_char(i) {
            proof {
                if spec_ends_with(a@, b@) {
                    assert(a@.skip(n - m)[i as int] == a@[n - m + i]);
                }
            }
            return false;
        }
        i = i + 1;
    }
    proof {
        assert(a@.skip(n - m) =~= b@);
    }
    true
}

/// Does `b` occur inside `a`?
pub fn str_contains(a: &str, b: &str) -> (r: bool)
    ensures
        r == spec_contains(a@, b@),
{
    let n = a.unicode_len();
    let m = b.unicode_len();
    if m > n {
        return false;
    }
    if m == 0 {
        proof {
            assert(a@.subrange(0, 0 + b@.len() as int) =~= b@);
        }
        return true;
    }
    let mut o: usize = 0;
    while o <= n - m
        invariant
            0 <= o <= n - m + 1,
            1 <= m <= n,
            n == a@.len(),
            m == b@.len(),
            forall|p: int|
                0 <= p < o ==> #[trigger] a@.subrange(p, p + b@.len() as int) != b@,
        decreases n - o,
    {
        let mut i: usize = 0;
        let mut matched = true;
        while i < m
            invariant
                0 <= i <= m,
                0 <= o <= n - m,
                m <= n,
                n == a@.len(),
                m == b@.len(),
                matched ==> forall|j: int| 0 <= j < i ==> a@[o + j] == b@[j],
                !matched ==> a@.subrange(o as int, o + m) != b@,
            decreases m - i,
        {
            if a.get_char(o + i) != b.get_char(i) {
                proof {
                    assert(a@.subrange(o as int, o + m)[i as int] == a@[o + i]);
                }
                matched = false;
                i = m;
            } else {
                i = i + 1;
            }
        }
        if matched {
            proof {
                assert(a@.subrange(o as int, o + m) =~= b@);
            }
            return true;
        }
        o = o + 1;
    }
    false
}

/// Character `c` matches keyword character `k` ignoring ASCII case:
/// `k` is the upper-case form used in the keyword tables.
pub open spec fn ci_match(c: char, k: char) -> bool {
    c == k || (65 <= k as u32 && k as u32 <= 90 && c as u32 == k as u32 + 32)
}

/// `s` equals the upper-case keyword `kw` ignoring ASCII case.
pub open spec fn spec_eq_ci(s: Seq<char>, kw: Seq<char>) -> bool {
    s.len() == kw.len() && forall|j: int| 0 <= j < kw.len() ==> ci_match(s[j], kw[j])
}

/// `s` begins with the upper-case keyword `kw` ignoring ASCII case.
pub open spec fn spec_prefix_ci(s: Seq<char>, kw: Seq<char>) -> bool {
    s.len() >= kw.len() && forall|j: int| 0 <= j < kw.len() ==> ci_match(s[j], kw[j])
}

/// Does `s` equal the upper-case keyword `kw`, ignoring ASCII case?
pub fn str_eq_ci(s: &str, kw: &str) -> (r: bool)
    ensures
        r == spec_eq_ci(s@, kw@),
{
    let n = s.unicode_len();
    let m = kw.unicode_len();
    if n != m {
        return false;
    }
    let mut i: usize = 0;
    while i < m
        invariant
            0 <= i <= m,
            n == m,
            n == s@.len(),
            m == kw@.len(),
            forall|j: int| 0 <= j < i ==> ci_match(s@[j], kw@[j]),
        decreases m - i,
    {
        let c = s.get_char(i) as u32;
        let k = kw.get_char(i) as u32;
        if !(c == k || (65 <= k && k <= 90 && c == k + 32)) {
            return false;
        }
        i = i + 1;
    }
    true
}

/// Does `s` begin with the upper-case keyword `kw`, ignoring ASCII case?
pub fn str_prefix_ci(s: &str, kw: &str) -> (r: bool)
    ensures
        r == spec_prefix_ci(s@, kw@),
{
    let n = s.unicode_len();
    let m = kw.unicode_len();
    if n < m {
        return false;
    }
    let mut i: usize = 0;
    while i < m
        invariant
            0 <= i <= m,
            m <= n,
            n == s@.len(),
            m == kw@.len(),
            forall|j: int| 0 <= j < i ==> ci_match(s@[j], kw@[j]),
        decreases m - i,
    {
        let c = s.get_char(i) as u32;
        let k = kw.get_char(i) as u32;
        if !(c == k || (65 <= k && k <= 90 && c == k + 32)) {
            return false;
        }
        i = i + 1;
    }
    true
}

/// A whitespace character, as the trailing-trim of `set` values sees it.
pub open spec fn is_ws(c: char) -> bool {
    c == ' ' || c == '\t' || c == '\n' || c == '\r'
}

/// `s` with every trailing whitespace character removed.
pub open spec fn trim_end_ws(s: Seq<char>) -> Seq<char>
    decreases s.len(),
{
    if s.len() == 0 {
        s
    } else if is_ws(s.last()) {
        trim_end_ws(s.drop_last())
    } else {
        s
    }
}

/// Position of the first space in `s`, or `s.len()` if there is none.
pub open spec fn first_sp(s: Seq<char>) -> nat
    decreases s.len(),
{
    if s.len() == 0 {
        0
    } else if s[0] == ' ' {
        0
    } else {
        1 + first_sp(s.skip(1))
    }
}

/// The first space is never past the end.
proof fn lemma_first_sp_le(s: Seq<char>)
    ensures
        first_sp(s) <= s.len(),
    decreases s.len(),
{
    if s.len() > 0 && s[0] != ' ' {
        lemma_first_sp_le(s.skip(1));
    }
}

/// A position with a space and none before it is `first_sp`.
proof fn lemma_first_sp_is(s: Seq<char>, m: int)
    requires
        0 <= m <= s.len(),
        m == s.len() || s[m] == ' ',
        forall|j: int| 0 <= j < m ==> s[j] != ' ',
    ensures
        first_sp(s) == m,
    decreases s.len(),
{
    if s.len() == 0 {
    } else if s[0] == ' ' {
    } else {
        assert(m >= 1);
        assert(forall|j: int| 0 <= j < m - 1 ==> s.skip(1)[j] == s[j + 1]);
        if m - 1 < s.skip(1).len() {
            assert(s.skip(1)[m - 1] == s[m]);
        }
        lemma_first_sp_is(s.skip(1), m - 1);
    }
}

/// The space-separated pieces of a command line, empty pieces dropped.
pub open spec fn spec_split_ws(s: Seq<char>) -> Seq<Seq<char>>
    decreases s.len(),
    via spec_split_ws_decreases
{
    if s.len() == 0 {
        seq![]
    } else if s[0] == ' ' {
        spec_split_ws(s.skip(1))
    } else {
        let i = first_sp(s) as int;
        seq![s.take(i)] + spec_split_ws(s.skip(i))
    }
}

#[via_fn]
proof fn spec_split_ws_decreases(s: Seq<char>) {
    lemma_first_sp_le(s);
}

/// Split a command line into its space-separated words.
pub fn split_ws(s: &str) -> (r: Vec<String>)
    ensures
        r.deep_view() == spec_split_ws(s@),
{
    let n = s.unicode_len();
    let mut out: Vec<String> = Vec::new();
    let mut pos: usize = 0;
    proof {
        assert(s@.skip(0) =~= s@);
        assert(out.deep_view() =~= Seq::<Seq<char>>::empty());
        assert(Seq::<Seq<char>>::empty() + spec_split_ws(s@) =~= spec_split_ws(s@));
    }
    while pos < n
        invariant
            0 <= pos <= n,
            n == s@.len(),
            spec_split_ws(s@) == out.deep_view() + spec_split_ws(s@.skip(pos as int)),
        decreases n - pos,
    {
        let ghost tail = s@.skip(pos as int);
        proof {
            assert(tail[0] == s@[pos as int]);
        }
        if s.get_char(pos) == ' ' {
            proof {
                assert(tail.skip(1) =~= s@.skip(pos + 1));
            }
            pos = pos + 1;
        } else {
            let mut k: usize = pos;
            while k < n && s.get_char(k) != ' '
                invariant
                    pos <= k <= n,
                    n == s@.len(),
                    forall|j: int| pos <= j < k ==> s@[j] != ' ',
                decreases n - k,
            {
                k = k + 1;
            }
            proof {
                assert(forall|j: int| 0 <= j < k - pos ==> tail[j] == s@[j + pos]);
                if k < n {
                    assert(tail[k - pos] == s@[k as int]);
                }
                lemma_first_sp_is(tail, k - pos);
            }
            let piece = String::from_str(s.substring_char(pos, k));
            let ghost out0 = out.deep_view();
            out.push(piece);
            proof {
                assert(piece@ =~= tail.take(k - pos));
                assert(tail.skip(k - pos) =~= s@.skip(k as int));
                assert(out.deep_view() =~= out0 + seq![tail.take(k - pos)]);
                assert((out0 + seq![tail.take(k - pos)]) + spec_split_ws(s@.skip(k as int))
                    =~= out0 + (seq![tail.take(k - pos)] + spec_split_ws(s@.skip(k as int))));
            }
            pos = k;
        }
    }
    proof {
        assert(s@.skip(n as int) =~= Seq::<char>::empty());
        assert(spec_split_ws(Seq::<char>::empty()) =~= Seq::<Seq<char>>::empty());
        assert(out.deep_view() + Seq::<Seq<char>>::empty() =~= out.deep_view());
    }
    out
}

/// Trimming leaves no trailing whitespace behind.
pub proof fn lemma_trim_end_no_trailing(s: Seq<char>)
    ensures
        trim_end_ws(s).len() > 0 ==> !is_ws(trim_end_ws(s).last()),
    decreases s.len(),
{
    if s.len() > 0 && is_ws(s.last()) {
        lemma_trim_end_no_trailing(s.drop_last());
    }
}

/// Is `c` a whitespace character?
pub fn is_ws_char(c: char) -> (r: bool)
    ensures
        r == is_ws(c),
{
    c == ' ' || c == '\t' || c == '\n' || c == '\r'
}

/// Remove trailing whitespace from a string.
pub fn str_trim_end(s: &str) -> (r: String)
    ensures
        r@ == trim_end_ws(s@),
{
    let n = s.unicode_len();
    let mut e: usize = n;
    proof {
        assert(s@.take(n as int) =~= s@);
    }
    while e > 0 && is_ws_char(s.get_char(e - 1))
        invariant
            0 <= e <= n,
            n == s@.len(),
            trim_end_ws(s@) == trim_end_ws(s@.take(e as int)),
        decreases e,
    {
        proof {
            assert(s@.take(e as int).drop_last() =~= s@.take(e - 1));
            assert(s@.take(e as int).last() == s@[e - 1]);
        }
        e = e - 1;
    }
    let r = String::from_str(s.substring_char(0, e));
    proof {
        if e == 0 {
            assert(s@.take(0) =~= Seq::<char>::empty());
        } else {
            assert(s@.take(e as int).last() == s@[e - 1]);
            assert(trim_end_ws(s@.take(e as int)) == s@.take(e as int));
        }
        assert(r@ =~= trim_end_ws(s@));
    }
    r
}

} // verus!
