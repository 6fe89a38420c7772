//! Searching byte buffers for separators and markers.

use vstd::prelude::*;

verus! {

/// `pat` occurs in `b` at index `i`.
pub open spec fn occurs_at(b: Seq<u8>, pat: Seq<u8>, i: int) -> bool {
    0 <= i && i + pat.len() <= b.len() && b.subrange(i, i + pat.len()) == pat
}

/// The first index at or after `i` where `pat` occurs in `b` (the first
/// matching window), if any.
pub open spec fn find_pat_from(b: Seq<u8>, pat: Seq<u8>, i: int) -> Option<int>
    decreases b.len() + 1 - i,
{
    if i < 0 || i + pat.len() > b.len() {
        None
    } else if occurs_at(b, pat, i) {
        Some(i)
    } else {
        find_pat_from(b, pat, i + 1)
    }
}

/// Where a search finds the pattern, it lies within the buffer, at or after
/// the start of the search.
pub proof fn lemma_find_pat_from_bounds(b: Seq<u8>, pat: Seq<u8>, i: int)
    ensures
        find_pat_from(b, pat, i) matches Some(p) ==> i <= p && p + pat.len() <= b.len()
            && occurs_at(b, pat, p),
    decreases b.len() + 1 - i,
{
    if !(i < 0 || i + pat.len() > b.len()) && !occurs_at(b, pat, i) {
        lemma_find_pat_from_bounds(b, pat, i + 1);
    }
}

/// Executable pattern match at one index.
pub fn matches_at(b: &[u8], pat: &[u8], i: usize) -> (r: bool)
    requires
        i + pat@.len() <= b@.len(),
    ensures
        r == occurs_at(b@, pat@, i as int),
{
    let mut k: usize = 0;
    let n = b.len();
    while k < pat.len()
        invariant
            n == b@.len(),
            i + pat@.len() <= b@.len(),
            k <= pat@.len(),
            forall|j: int| 0 <= j < k ==> b@[i + j] == pat@[j],
        decreases pat.len() - k,
    {
        if b[i + k] != pat[k] {
            assert(b@.subrange(i as int, i + pat@.len())[k as int] != pat@[k as int]);
            return false;
        }
        k = k + 1;
    }
    assert(b@.subrange(i as int, i + pat@.len()) =~= pat@);
    true
}

/// Executable `find_pat_from` (`windows(..).skip(from).position(..)`, as an
/// absolute index).
pub fn find_pattern(b: &[u8], pat: &[u8], from: usize) -> (r: Option<usize>)
    requires
        pat@.len() > 0,
    ensures
        match r {
            Some(p) => find_pat_from(b@, pat@, from as int) == Some(p as int) && from <= p && p
                + pat@.len() <= b@.len(),
            None => find_pat_from(b@, pat@, from as int) is None,
        },
{
    let n = b.len();
    let m = pat.len();
    if m > n {
        return None;
    }
    let mut i: usize = from;
    while i <= n - m
        invariant
            m == pat@.len(),
            n == b@.len(),
            0 < m <= n,
            from <= i,
            find_pat_from(b@, pat@, from as int) == find_pat_from(b@, pat@, i as int),
        decreases n - i,
    {
        if matches_at(b, pat, i) {
            proof {
                lemma_find_pat_from_bounds(b@, pat@, from as int);
            }
            return Some(i);
        }
        i = i + 1;
    }
    None
}

/// Copy of `b[lo..hi]`.
pub fn sub_bytes(b: &[u8], lo: usize, hi: usize) -> (r: Vec<u8>)
    requires
        lo <= hi <= b@.len(),
    ensures
        r@ == b@.subrange(lo as int, hi as int),
{
    let mut r: Vec<u8> = Vec::new();
    let mut i: usize = lo;
    while i < hi
        invariant
            lo <= i <= hi <= b@.len(),
            r@ == b@.subrange(lo as int, i as int),
        decreases hi - i,
    {
        r.push(b[i]);
        i = i + 1;
    }
    r
}

/// Appends `src` to `dst`.
pub fn append_bytes(dst: &mut Vec<u8>, src: &[u8])
    ensures
        final(dst)@ == old(dst)@ + src@,
{
    let mut i: usize = 0;
    while i < src.len()
        invariant
            i <= src@.len(),
            dst@ == old(dst)@ + src@.take(i as int),
        decreases src.len() - i,
    {
        assert(src@.take(i + 1) =~= src@.take(i as int).push(src@[i as int]));
        dst.push(src[i]);
        i = i + 1;
    }
    assert(src@.take(src@.len() as int) =~= src@);
}

} // verus!
