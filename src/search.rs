//! Leftmost and rightmost search of a byte pattern inside a byte buffer.

use vstd::prelude::*;

verus! {

/// `p` occurs in `d` starting at index `i`.
pub open spec fn occurs_at(d: Seq<u8>, p: Seq<u8>, i: int) -> bool {
    0 <= i && i + p.len() <= d.len() && d.subrange(i, i + p.len()) == p
}

/// `p` occurs somewhere in `d`.
pub open spec fn occurs_in(d: Seq<u8>, p: Seq<u8>) -> bool {
    exists|i: int| occurs_at(d, p, i)
}

/// The largest index in `lo..=hi` at which `p` occurs in `d`.
pub open spec fn last_match(d: Seq<u8>, p: Seq<u8>, lo: int, hi: int) -> Option<int>
    decreases hi - lo + 1,
{
    if hi < lo {
        None
    } else if occurs_at(d, p, hi) {
        Some(hi)
    } else {
        last_match(d, p, lo, hi - 1)
    }
}

/// The rightmost occurrence of `p` in `d` at or after `from`.
pub open spec fn rfind_from(d: Seq<u8>, p: Seq<u8>, from: int) -> Option<int> {
    last_match(d, p, from, d.len() - p.len())
}

/// The leftmost occurrence of `p` in `d` at or after `from`.
pub open spec fn find_from(d: Seq<u8>, p: Seq<u8>, from: int) -> Option<int>
    decreases d.len() + 1 - from,
{
    if from < 0 || from + p.len() > d.len() {
        None
    } else if occurs_at(d, p, from) {
        Some(from)
    } else {
        find_from(d, p, from + 1)
    }
}

pub open spec fn as_int(r: Option<usize>) -> Option<int> {
    match r {
        Some(i) => Some(i as int),
        None => None,
    }
}

/// What `last_match` returns: an occurrence in range, with none after it.
pub proof fn lemma_last_match(d: Seq<u8>, p: Seq<u8>, lo: int, hi: int)
    ensures
        match last_match(d, p, lo, hi) {
            Some(k) => lo <= k <= hi && occurs_at(d, p, k) && forall|j: int|
                k < j <= hi ==> !occurs_at(d, p, j),
            None => forall|j: int| lo <= j <= hi ==> !occurs_at(d, p, j),
        },
    decreases hi - lo + 1,
{
    if hi >= lo && !occurs_at(d, p, hi) {
        lemma_last_match(d, p, lo, hi - 1);
    }
}

/// An occurrence in range with none after it is what `last_match` returns.
pub proof fn lemma_last_match_is(d: Seq<u8>, p: Seq<u8>, lo: int, hi: int, k: int)
    requires
        lo <= k <= hi,
        occurs_at(d, p, k),
        forall|j: int| k < j <= hi ==> !occurs_at(d, p, j),
    ensures
        last_match(d, p, lo, hi) == Some(k),
    decreases hi - lo + 1,
{
    if hi != k {
        lemma_last_match_is(d, p, lo, hi - 1, k);
    }
}

/// What `find_from` returns: an occurrence at or after `from`, with none
/// between `from` and it.
pub proof fn lemma_find_from(d: Seq<u8>, p: Seq<u8>, from: int)
    requires
        0 <= from,
    ensures
        match find_from(d, p, from) {
            Some(k) => from <= k && occurs_at(d, p, k) && forall|j: int|
                from <= j < k ==> !occurs_at(d, p, j),
            None => forall|j: int| from <= j ==> !occurs_at(d, p, j),
        },
    decreases d.len() + 1 - from,
{
    if !(from < 0 || from + p.len() > d.len()) && !occurs_at(d, p, from) {
        lemma_find_from(d, p, from + 1);
    }
}

/// An occurrence at or after `from`, with none between, is what `find_from`
/// returns.
pub proof fn lemma_find_from_is(d: Seq<u8>, p: Seq<u8>, from: int, k: int)
    requires
        0 <= from <= k,
        occurs_at(d, p, k),
        forall|j: int| from <= j < k ==> !occurs_at(d, p, j),
    ensures
        find_from(d, p, from) == Some(k),
    decreases k - from,
{
    if from != k {
        lemma_find_from_is(d, p, from + 1, k);
    }
}

/// `p` occurs in `d` at index `i`.
pub fn matches_at(d: &[u8], p: &[u8], i: usize) -> (r: bool)
    ensures
        r == occurs_at(d@, p@, i as int),
{
    if p.len() > d.len() || i > d.len() - p.len() {
        return false;
    }
    let mut j: usize = 0;
    while j < p.len()
        invariant
            i + p.len() <= d.len(),
            j <= p.len(),
            forall|t: int| 0 <= t < j ==> d@[i + t] == p@[t],
        decreases p@.len() - j,
    {
        if d[i + j] != p[j] {
            assert(d@.subrange(i as int, i + p@.len())[j as int] != p@[j as int]);
            return false;
        }
        j = j + 1;
    }
    assert(d@.subrange(i as int, i + p@.len()) =~= p@);
    true
}

/// Searches `data` for `pattern` at an index no smaller than `start_from`:
/// the rightmost such occurrence when `reverse` holds, the leftmost otherwise.
pub fn find_bytes(data: &[u8], pattern: &[u8], start_from: usize, reverse: bool) -> (r: Option<
    usize,
>)
    ensures
        reverse ==> as_int(r) == rfind_from(data@, pattern@, start_from as int),
        !reverse ==> as_int(r) == find_from(data@, pattern@, start_from as int),
{
    if pattern.len() > data.len() {
        return None;
    }
    let hi = data.len() - pattern.len();
    if reverse {
        if start_from > hi {
            return None;
        }
        let mut i = hi;
        loop
            invariant
                reverse,
                start_from <= i <= hi,
                hi == data@.len() - pattern@.len(),
                last_match(data@, pattern@, start_from as int, hi as int) == last_match(
                    data@,
                    pattern@,
                    start_from as int,
                    i as int,
                ),
            decreases i,
        {
            if matches_at(data, pattern, i) {
                return Some(i);
            }
            if i == start_from {
                assert(last_match(data@, pattern@, start_from as int, start_from - 1) is None);
                return None;
            }
            i = i - 1;
        }
    } else {
        if start_from > hi {
            return None;
        }
        let mut i = start_from;
        loop
            invariant
                !reverse,
                hi == data@.len() - pattern@.len(),
                start_from <= i <= hi,
                find_from(data@, pattern@, start_from as int) == find_from(
                    data@,
                    pattern@,
                    i as int,
                ),
            decreases hi - i,
        {
            if matches_at(data, pattern, i) {
                return Some(i);
            }
            if i == hi {
                assert(find_from(data@, pattern@, i + 1) is None);
                return None;
            }
            i = i + 1;
        }
    }
}

} // verus!
