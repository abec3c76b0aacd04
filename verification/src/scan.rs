//! Byte-level scanning primitives shared by the request parser and the
//! form-body accessor: finding a byte, splitting on whitespace, trimming.

use vstd::prelude::*;
use vstd::slice::{slice_subrange, slice_to_vec};

verus! {

/// The bytes treated as whitespace when a request line is split into tokens
/// and when header values are trimmed: tab, LF, VT, FF, CR and space.
pub open spec fn is_ws(b: u8) -> bool {
    b == 9 || b == 10 || b == 11 || b == 12 || b == 13 || b == 32
}

/// Position of the first byte at or after `i` that satisfies `p`,
/// or `s.len()` when no such byte exists.
pub open spec fn scan_where(s: Seq<u8>, i: int, p: spec_fn(u8) -> bool) -> int
    decreases s.len() - i,
{
    if i < 0 || i >= s.len() {
        s.len() as int
    } else if p(s[i]) {
        i
    } else {
        scan_where(s, i + 1, p)
    }
}

/// Position of the first occurrence of `b` at or after `i`, or `s.len()`.
pub open spec fn scan_byte(s: Seq<u8>, i: int, b: u8) -> int {
    scan_where(s, i, |x: u8| x == b)
}

/// Position of the first whitespace byte at or after `i`, or `s.len()`.
pub open spec fn scan_ws(s: Seq<u8>, i: int) -> int {
    scan_where(s, i, |x: u8| is_ws(x))
}

/// Position of the first non-whitespace byte at or after `i`, or `s.len()`.
pub open spec fn scan_non_ws(s: Seq<u8>, i: int) -> int {
    scan_where(s, i, |x: u8| !is_ws(x))
}

/// What `scan_byte` returns: the first position at or after `i` holding `b`,
/// with no occurrence of `b` before it.
pub proof fn lemma_scan_byte(s: Seq<u8>, i: int, b: u8)
    requires
        0 <= i <= s.len(),
    ensures
        i <= scan_byte(s, i, b) <= s.len(),
        scan_byte(s, i, b) < s.len() ==> s[scan_byte(s, i, b)] == b,
        forall|j: int| i <= j < scan_byte(s, i, b) ==> s[j] != b,
    decreases s.len() - i,
{
    if i < s.len() && s[i] != b {
        lemma_scan_byte(s, i + 1, b);
    }
}

/// What `scan_ws` returns: the first whitespace position at or after `i`,
/// with only non-whitespace before it.
pub proof fn lemma_scan_ws(s: Seq<u8>, i: int)
    requires
        0 <= i <= s.len(),
    ensures
        i <= scan_ws(s, i) <= s.len(),
        scan_ws(s, i) < s.len() ==> is_ws(s[scan_ws(s, i)]),
        forall|j: int| i <= j < scan_ws(s, i) ==> !is_ws(s[j]),
    decreases s.len() - i,
{
    if i < s.len() && !is_ws(s[i]) {
        lemma_scan_ws(s, i + 1);
    }
}

/// What `scan_non_ws` returns: the first non-whitespace position at or after
/// `i`, with only whitespace before it.
pub proof fn lemma_scan_non_ws(s: Seq<u8>, i: int)
    requires
        0 <= i <= s.len(),
    ensures
        i <= scan_non_ws(s, i) <= s.len(),
        scan_non_ws(s, i) < s.len() ==> !is_ws(s[scan_non_ws(s, i)]),
        forall|j: int| i <= j < scan_non_ws(s, i) ==> is_ws(s[j]),
    decreases s.len() - i,
{
    if i < s.len() && is_ws(s[i]) {
        lemma_scan_non_ws(s, i + 1);
    }
}

/// First occurrence of `b` in `v` at or after `i`, as `scan_byte` gives it.
pub fn find_byte(v: &Vec<u8>, i: usize, b: u8) -> (r: usize)
    requires
        i <= v@.len(),
    ensures
        r == scan_byte(v@, i as int, b),
        i <= r <= v@.len(),
        r < v@.len() ==> v@[r as int] == b,
        forall|j: int| i <= j < r ==> v@[j] != b,
{
    proof {
        lemma_scan_byte(v@, i as int, b);
    }
    let mut j = i;
    while j < v.len()
        invariant
            i <= j <= v@.len(),
            scan_byte(v@, i as int, b) == scan_byte(v@, j as int, b),
        decreases v@.len() - j,
    {
        if v[j] == b {
            assert(scan_byte(v@, j as int, b) == j as int);
            proof {
                lemma_scan_byte(v@, i as int, b);
            }
            return j;
        }
        assert(scan_byte(v@, j as int, b) == scan_byte(v@, j + 1, b));
        j = j + 1;
    }
    assert(scan_byte(v@, j as int, b) == v@.len());
    j
}

/// Whether `b` is whitespace, as `is_ws` gives it.
pub fn ws_byte(b: u8) -> (r: bool)
    ensures
        r == is_ws(b),
{
    b == 9 || b == 10 || b == 11 || b == 12 || b == 13 || b == 32
}

/// First whitespace byte in `v` at or after `i`, as `scan_ws` gives it.
pub fn find_ws(v: &Vec<u8>, i: usize) -> (r: usize)
    requires
        i <= v@.len(),
    ensures
        r == scan_ws(v@, i as int),
        i <= r <= v@.len(),
{
    proof {
        lemma_scan_ws(v@, i as int);
    }
    let mut j = i;
    while j < v.len()
        invariant
            i <= j <= v@.len(),
            scan_ws(v@, i as int) == scan_ws(v@, j as int),
        decreases v@.len() - j,
    {
        if ws_byte(v[j]) {
            assert(scan_ws(v@, j as int) == j as int);
            return j;
        }
        assert(scan_ws(v@, j as int) == scan_ws(v@, j + 1));
        j = j + 1;
    }
    assert(scan_ws(v@, j as int) == v@.len());
    j
}

/// First non-whitespace byte in `v` at or after `i`, as `scan_non_ws` gives it.
pub fn find_non_ws(v: &Vec<u8>, i: usize) -> (r: usize)
    requires
        i <= v@.len(),
    ensures
        r == scan_non_ws(v@, i as int),
        i <= r <= v@.len(),
{
    proof {
        lemma_scan_non_ws(v@, i as int);
    }
    let mut j = i;
    while j < v.len()
        invariant
            i <= j <= v@.len(),
            scan_non_ws(v@, i as int) == scan_non_ws(v@, j as int),
        decreases v@.len() - j,
    {
        if !ws_byte(v[j]) {
            assert(scan_non_ws(v@, j as int) == j as int);
            return j;
        }
        assert(scan_non_ws(v@, j as int) == scan_non_ws(v@, j + 1));
        j = j + 1;
    }
    assert(scan_non_ws(v@, j as int) == v@.len());
    j
}

/// A fresh copy of the bytes of `v` from `a` (inclusive) to `b` (exclusive).
pub fn copy_range(v: &Vec<u8>, a: usize, b: usize) -> (r: Vec<u8>)
    requires
        a <= b <= v@.len(),
    ensures
        r@ == v@.subrange(a as int, b as int),
{
    slice_to_vec(slice_subrange(v.as_slice(), a, b))
}

/// Greatest position strictly below `i` holding a non-whitespace byte, or -1.
pub open spec fn last_non_ws_before(s: Seq<u8>, i: int) -> int
    decreases i,
{
    if i <= 0 {
        -1
    } else if !is_ws(s[i - 1]) {
        i - 1
    } else {
        last_non_ws_before(s, i - 1)
    }
}

/// What `last_non_ws_before` returns: the last non-whitespace position below
/// `i`, with only whitespace after it.
pub proof fn lemma_last_non_ws_before(s: Seq<u8>, i: int)
    requires
        0 <= i <= s.len(),
    ensures
        -1 <= last_non_ws_before(s, i) < i,
        last_non_ws_before(s, i) >= 0 ==> !is_ws(s[last_non_ws_before(s, i)]),
        forall|j: int| last_non_ws_before(s, i) < j < i ==> is_ws(s[j]),
    decreases i,
{
    if i > 0 && is_ws(s[i - 1]) {
        lemma_last_non_ws_before(s, i - 1);
    }
}

/// `s` with leading and trailing whitespace removed.
pub open spec fn trim_seq(s: Seq<u8>) -> Seq<u8> {
    if scan_non_ws(s, 0) == s.len() {
        Seq::empty()
    } else {
        s.subrange(scan_non_ws(s, 0), last_non_ws_before(s, s.len() as int) + 1)
    }
}

/// One past the last non-whitespace byte of `v`, or 0 when `v` is all
/// whitespace, as `last_non_ws_before` gives it.
pub fn trim_end_pos(v: &Vec<u8>) -> (r: usize)
    ensures
        r as int == last_non_ws_before(v@, v@.len() as int) + 1,
{
    let mut e = v.len();
    while e > 0
        invariant
            0 <= e <= v@.len(),
            last_non_ws_before(v@, v@.len() as int) == last_non_ws_before(v@, e as int),
        decreases e,
    {
        if !ws_byte(v[e - 1]) {
            assert(last_non_ws_before(v@, e as int) == e - 1);
            return e;
        }
        assert(last_non_ws_before(v@, e as int) == last_non_ws_before(v@, e - 1));
        e = e - 1;
    }
    assert(last_non_ws_before(v@, 0) == -1);
    0
}

/// A fresh copy of `v` with leading and trailing whitespace removed.
pub fn trim(v: &Vec<u8>) -> (r: Vec<u8>)
    ensures
        r@ == trim_seq(v@),
{
    let a = find_non_ws(v, 0);
    if a == v.len() {
        return Vec::new();
    }
    let e = trim_end_pos(v);
    proof {
        lemma_scan_non_ws(v@, 0);
        lemma_last_non_ws_before(v@, v@.len() as int);
        let last = last_non_ws_before(v@, v@.len() as int);
        if last < a as int {
            assert(is_ws(v@[a as int]));
            assert(false);
        }
    }
    copy_range(v, a, e)
}


/// `scan_byte` is pinned: when nothing in `[i, k)` is `b` and `k` is the end
/// or holds `b`, the scan lands exactly on `k`.
pub proof fn lemma_scan_byte_pin(s: Seq<u8>, i: int, k: int, b: u8)
    requires
        0 <= i <= k <= s.len(),
        forall|j: int| i <= j < k ==> s[j] != b,
        k < s.len() ==> s[k] == b,
    ensures
        scan_byte(s, i, b) == k,
{
    lemma_scan_byte(s, i, b);
    let r = scan_byte(s, i, b);
    if r < k {
        assert(s[r] != b);
    }
    if r > k {
        assert(k < s.len());
        assert(s[k] != b);
    }
}

/// `scan_ws` is pinned: when nothing in `[i, k)` is whitespace and `k` is the
/// end or holds whitespace, the scan lands exactly on `k`.
pub proof fn lemma_scan_ws_pin(s: Seq<u8>, i: int, k: int)
    requires
        0 <= i <= k <= s.len(),
        forall|j: int| i <= j < k ==> !is_ws(s[j]),
        k < s.len() ==> is_ws(s[k]),
    ensures
        scan_ws(s, i) == k,
{
    lemma_scan_ws(s, i);
    let r = scan_ws(s, i);
    if r < k {
        assert(!is_ws(s[r]));
    }
    if r > k {
        assert(k < s.len());
        assert(!is_ws(s[k]));
    }
}

/// `scan_non_ws` is pinned: when everything in `[i, k)` is whitespace and `k`
/// is the end or holds non-whitespace, the scan lands exactly on `k`.
pub proof fn lemma_scan_non_ws_pin(s: Seq<u8>, i: int, k: int)
    requires
        0 <= i <= k <= s.len(),
        forall|j: int| i <= j < k ==> is_ws(s[j]),
        k < s.len() ==> !is_ws(s[k]),
    ensures
        scan_non_ws(s, i) == k,
{
    lemma_scan_non_ws(s, i);
    let r = scan_non_ws(s, i);
    if r < k {
        assert(is_ws(s[r]));
    }
    if r > k {
        assert(k < s.len());
        assert(is_ws(s[k]));
    }
}

} // verus!
