//! Sorted lists of addresses: sorting them, through the standard library's
//! slice sort, and searching them.
use vstd::prelude::*;

verus! {

/// `s` is in ascending order.
pub open spec fn is_sorted(s: Seq<u64>) -> bool {
    forall|i: int, j: int| 0 <= i <= j < s.len() ==> s[i] <= s[j]
}

/// `slice::sort`: the elements of `v` in ascending order. For integers the
/// sorted arrangement of a multiset is unique.
#[verifier::external_body]
pub(crate) fn sort_u64(v: &mut Vec<u64>)
    ensures
        is_sorted(final(v)@),
        final(v)@.to_multiset() == old(v)@.to_multiset(),
{
    v.sort();
}

/// Searches the ascending slice `v` for `x`, as `slice::binary_search`
/// does: `Ok` with the index of an element equal to `x` (the last one, when
/// several are), or `Err` with the index at which `x` could be inserted
/// keeping the order.
pub(crate) fn binary_search_u64(v: &[u64], x: u64) -> (r: Result<usize, usize>)
    requires
        is_sorted(v@),
    ensures
        match r {
            Ok(i) => i < v@.len() && v@[i as int] == x && (forall|j: int| i < j < v@.len() ==> v@[j] > x),
            Err(i) => i <= v@.len() && (forall|j: int| 0 <= j < i ==> v@[j] < x) && (forall|j: int| i <= j < v@.len() ==> v@[j] > x),
        },
{
    let mut lo: usize = 0;
    let mut hi: usize = v.len();
    while lo < hi
        invariant
            is_sorted(v@),
            lo <= hi <= v@.len(),
            forall|j: int| 0 <= j < lo ==> v@[j] <= x,
            forall|j: int| hi <= j < v@.len() ==> v@[j] > x,
        decreases hi - lo,
    {
        let mid = lo + (hi - lo) / 2;
        if v[mid] <= x {
            lo = mid + 1;
        } else {
            hi = mid;
        }
    }
    if lo > 0 && v[lo - 1] == x {
        Ok(lo - 1)
    } else {
        proof {
            assert forall|j: int| 0 <= j < lo implies v@[j] < x by {
                if lo > 0 {
                    assert(v@[j] <= v@[lo - 1]);
                }
            }
        }
        Err(lo)
    }
}

} // verus!
