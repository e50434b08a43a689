//! Byte-sequence helpers shared by the header parser, the token codec and the
//! cookie builder: whitespace trimming, byte search, slicing and comparison,
//! each with an exact specification over `Seq<u8>`.

use vstd::prelude::*;

verus! {

/// ASCII whitespace, as trimmed from header values: space, tab, line feed,
/// vertical tab, form feed, carriage return.
pub open spec fn is_ws(b: u8) -> bool {
    b == 32 || b == 9 || b == 10 || b == 11 || b == 12 || b == 13
}

/// ASCII decimal digit.
pub open spec fn is_digit(b: u8) -> bool {
    48 <= b <= 57
}

/// Index of the first byte at or after `from` that is not whitespace, or
/// `s.len()` if every later byte is whitespace.
pub open spec fn first_non_ws(s: Seq<u8>, from: int) -> int
    decreases s.len() - from,
{
    if from < 0 || from >= s.len() {
        s.len() as int
    } else if !is_ws(s[from]) {
        from
    } else {
        first_non_ws(s, from + 1)
    }
}

/// End (exclusive) of the last non-whitespace byte strictly before `to`, or
/// `0` if every earlier byte is whitespace.
pub open spec fn last_non_ws_end(s: Seq<u8>, to: int) -> int
    decreases to,
{
    if to <= 0 || to > s.len() {
        0
    } else if !is_ws(s[to - 1]) {
        to
    } else {
        last_non_ws_end(s, to - 1)
    }
}

/// `s` with leading and trailing whitespace removed.
pub open spec fn spec_trim(s: Seq<u8>) -> Seq<u8> {
    let a = first_non_ws(s, 0);
    if a == s.len() {
        Seq::empty()
    } else {
        s.subrange(a, last_non_ws_end(s, s.len() as int))
    }
}

/// A trimmed sequence is returned unchanged by another trim; and a sequence
/// without whitespace at either end is its own trim.
pub proof fn lemma_trim_noop(s: Seq<u8>)
    requires
        s.len() > 0 ==> !is_ws(s[0]) && !is_ws(s[s.len() - 1]),
    ensures
        spec_trim(s) == s,
{
    if s.len() == 0 {
        assert(spec_trim(s) =~= s);
    } else {
        assert(first_non_ws(s, 0) == 0);
        assert(last_non_ws_end(s, s.len() as int) == s.len());
        assert(spec_trim(s) =~= s);
    }
}

/// Index of the first occurrence of `b` at or after `from`, or `s.len()` if
/// there is none.
pub open spec fn find_byte(s: Seq<u8>, b: u8, from: int) -> int
    decreases s.len() - from,
{
    if from < 0 || from >= s.len() {
        s.len() as int
    } else if s[from] == b {
        from
    } else {
        find_byte(s, b, from + 1)
    }
}

/// `find_byte` returns an index in `[from, s.len()]`; the byte there matches
/// when the index is within bounds, and no earlier byte matches.
pub proof fn lemma_find_byte_props(s: Seq<u8>, b: u8, from: int)
    requires
        0 <= from <= s.len(),
    ensures
        from <= find_byte(s, b, from) <= s.len(),
        find_byte(s, b, from) < s.len() ==> s[find_byte(s, b, from)] == b,
        forall|k: int| from <= k < find_byte(s, b, from) ==> s[k] != b,
    decreases s.len() - from,
{
    if from < s.len() && s[from] != b {
        lemma_find_byte_props(s, b, from + 1);
    }
}

/// An index before which `b` does not occur, and at which `b` occurs or the
/// sequence ends, is exactly what `find_byte` returns.
pub proof fn lemma_find_byte_at(s: Seq<u8>, b: u8, from: int, i: int)
    requires
        0 <= from <= i <= s.len(),
        forall|k: int| from <= k < i ==> s[k] != b,
        i == s.len() || s[i] == b,
    ensures
        find_byte(s, b, from) == i,
    decreases i - from,
{
    if from < i {
        lemma_find_byte_at(s, b, from + 1, i);
    }
}

/// Executable search for `find_byte`.
pub fn find_byte_from(v: &Vec<u8>, b: u8, from: usize) -> (r: usize)
    requires
        from <= v@.len(),
    ensures
        r == find_byte(v@, b, from as int),
        from <= r <= v@.len(),
        r < v@.len() ==> v@[r as int] == b,
        forall|k: int| from <= k < r ==> v@[k] != b,
{
    let n = v.len();
    let mut i = from;
    while i < n && v[i] != b
        invariant
            from <= i <= n,
            n == v@.len(),
            find_byte(v@, b, from as int) == find_byte(v@, b, i as int),
        decreases n - i,
    {
        i += 1;
    }
    proof {
        lemma_find_byte_props(v@, b, from as int);
    }
    i
}

/// Whether `p` occurs in `s` starting at index `from`.
pub open spec fn spec_match_at(s: Seq<u8>, from: int, p: Seq<u8>) -> bool {
    0 <= from && from + p.len() <= s.len() && s.subrange(from, from + p.len()) == p
}

/// Executable check for `spec_match_at`.
pub fn match_at(v: &Vec<u8>, from: usize, p: &Vec<u8>) -> (r: bool)
    ensures
        r == spec_match_at(v@, from as int, p@),
{
    if v.len() < p.len() || from > v.len() - p.len() {
        return false;
    }
    let mut i: usize = 0;
    while i < p.len()
        invariant
            from + p@.len() <= v@.len(),
            from <= usize::MAX - p@.len(),
            0 <= i <= p@.len(),
            forall|k: int| 0 <= k < i ==> v@[from + k] == p@[k],
        decreases p@.len() - i,
    {
        if v[from + i] != p[i] {
            assert(v@.subrange(from as int, from + p@.len())[i as int] != p@[i as int]);
            return false;
        }
        i += 1;
    }
    proof {
        assert(v@.subrange(from as int, from + p@.len()) =~= p@);
    }
    true
}

/// Copy of `v[lo..hi]`.
pub fn subvec(v: &Vec<u8>, lo: usize, hi: usize) -> (r: Vec<u8>)
    requires
        lo <= hi <= v@.len(),
    ensures
        r@ == v@.subrange(lo as int, hi as int),
{
    let mut r: Vec<u8> = Vec::new();
    let mut i: usize = lo;
    while i < hi
        invariant
            lo <= i <= hi <= v@.len(),
            r@ == v@.subrange(lo as int, i as int),
        decreases hi - i,
    {
        r.push(v[i]);
        i += 1;
        proof {
            assert(r@ =~= v@.subrange(lo as int, i as int));
        }
    }
    r
}

/// Byte-for-byte equality of two vectors.
pub fn bytes_eq(a: &Vec<u8>, b: &Vec<u8>) -> (r: bool)
    ensures
        r == (a@ == b@),
{
    if a.len() != b.len() {
        return false;
    }
    let mut i: usize = 0;
    while i < a.len()
        invariant
            a@.len() == b@.len(),
            0 <= i <= a@.len(),
            forall|k: int| 0 <= k < i ==> a@[k] == b@[k],
        decreases a@.len() - i,
    {
        if a[i] != b[i] {
            return false;
        }
        i += 1;
    }
    proof {
        assert(a@ =~= b@);
    }
    true
}

/// `v` with leading and trailing whitespace removed.
pub fn trim_bytes(v: &Vec<u8>) -> (r: Vec<u8>)
    ensures
        r@ == spec_trim(v@),
{
    let n = v.len();
    let mut a: usize = 0;
    while a < n && (v[a] == 32 || v[a] == 9 || v[a] == 10 || v[a] == 11 || v[a] == 12 || v[a]
        == 13)
        invariant
            0 <= a <= n,
            n == v@.len(),
            first_non_ws(v@, 0) == first_non_ws(v@, a as int),
        decreases n - a,
    {
        a += 1;
    }
    if a == n {
        let r: Vec<u8> = Vec::new();
        proof {
            assert(first_non_ws(v@, 0) == n);
            assert(r@ =~= spec_trim(v@));
        }
        return r;
    }
    assert(first_non_ws(v@, 0) == a);
    let mut b: usize = n;
    while v[b - 1] == 32 || v[b - 1] == 9 || v[b - 1] == 10 || v[b - 1] == 11 || v[b - 1] == 12
        || v[b - 1] == 13
        invariant
            a < b <= n,
            n == v@.len(),
            !is_ws(v@[a as int]),
            last_non_ws_end(v@, n as int) == last_non_ws_end(v@, b as int),
        decreases b,
    {
        b -= 1;
    }
    assert(last_non_ws_end(v@, n as int) == b);
    subvec(v, a, b)
}

} // verus!
