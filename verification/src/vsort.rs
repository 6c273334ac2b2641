//! Stable sorts of vtable records, by address and by class name, through
//! the standard library's stable `sort_by_key`.
use vstd::prelude::*;
use vstd::utf8::encode_utf8;

use crate::vtable::{vtable_view, vtables_view_of, VTableInfo, VTableView};

verus! {

/// `a` comes no later than `b` in byte-wise lexicographic order.
pub open spec fn bytes_le(a: Seq<u8>, b: Seq<u8>) -> bool
    decreases a.len(),
{
    if a.len() == 0 {
        true
    } else if b.len() == 0 {
        false
    } else if a[0] < b[0] {
        true
    } else if a[0] > b[0] {
        false
    } else {
        bytes_le(a.drop_first(), b.drop_first())
    }
}

/// `a` comes no later than `b` as strings are ordered: by their UTF-8 bytes.
pub open spec fn name_le(a: Seq<char>, b: Seq<char>) -> bool {
    bytes_le(encode_utf8(a), encode_utf8(b))
}

/// `x` inserted into `s` after every element whose address is no greater.
pub open spec fn insert_by_address(s: Seq<VTableView>, x: VTableView) -> Seq<VTableView>
    decreases s.len(),
{
    if s.len() == 0 {
        seq![x]
    } else if s.last().1 <= x.1 {
        s.push(x)
    } else {
        insert_by_address(s.drop_last(), x).push(s.last())
    }
}

/// `s` sorted by address, keeping the order of equal addresses.
pub open spec fn sort_views_by_address(s: Seq<VTableView>) -> Seq<VTableView>
    decreases s.len(),
{
    if s.len() == 0 {
        s
    } else {
        insert_by_address(sort_views_by_address(s.drop_last()), s.last())
    }
}

/// `x` inserted into `s` after every element whose name is no greater.
pub open spec fn insert_by_name(s: Seq<VTableView>, x: VTableView) -> Seq<VTableView>
    decreases s.len(),
{
    if s.len() == 0 {
        seq![x]
    } else if name_le(s.last().0, x.0) {
        s.push(x)
    } else {
        insert_by_name(s.drop_last(), x).push(s.last())
    }
}

/// `s` sorted by class name, keeping the order of equal names.
pub open spec fn sort_views_by_name(s: Seq<VTableView>) -> Seq<VTableView>
    decreases s.len(),
{
    if s.len() == 0 {
        s
    } else {
        insert_by_name(sort_views_by_name(s.drop_last()), s.last())
    }
}

/// `slice::sort_by_key` on the address: a stable sort, so the one
/// arrangement sorted by address that keeps equal addresses in order.
#[verifier::external_body]
pub(crate) fn sort_vtables_by_address(v: &mut Vec<VTableInfo>)
    ensures
        vtables_view_of(final(v)@) == sort_views_by_address(vtables_view_of(old(v)@)),
{
    v.sort_by_key(|e| e.vtable_address);
}

/// `slice::sort_by_key` on the class name (strings order by their bytes):
/// a stable sort, so the one arrangement sorted by name that keeps equal
/// names in order.
#[verifier::external_body]
pub(crate) fn sort_vtables_by_name(v: &mut Vec<VTableInfo>)
    ensures
        vtables_view_of(final(v)@) == sort_views_by_name(vtables_view_of(old(v)@)),
{
    v.sort_by_key(|e| e.class_name.clone());
}

/// The plain values of a list of references to vtable records.
pub open spec fn ref_views(s: Seq<&VTableInfo>) -> Seq<VTableView> {
    s.map_values(|v: &VTableInfo| vtable_view(*v))
}

/// `slice::sort_by_key` on the class name, for references.
#[verifier::external_body]
pub(crate) fn sort_refs_by_name(v: &mut Vec<&VTableInfo>)
    ensures
        ref_views(final(v)@) == sort_views_by_name(ref_views(old(v)@)),
{
    v.sort_by_key(|e| e.class_name.clone());
}


/// `x` inserted into `s` after every pair whose name is no greater.
pub open spec fn insert_pair_by_name(s: Seq<(Seq<char>, Seq<usize>)>, x: (Seq<char>, Seq<usize>)) -> Seq<(Seq<char>, Seq<usize>)>
    decreases s.len(),
{
    if s.len() == 0 {
        seq![x]
    } else if name_le(s.last().0, x.0) {
        s.push(x)
    } else {
        insert_pair_by_name(s.drop_last(), x).push(s.last())
    }
}

/// `s` sorted by name, keeping the order of equal names.
pub open spec fn sort_pairs_by_name(s: Seq<(Seq<char>, Seq<usize>)>) -> Seq<(Seq<char>, Seq<usize>)>
    decreases s.len(),
{
    if s.len() == 0 {
        s
    } else {
        insert_pair_by_name(sort_pairs_by_name(s.drop_last()), s.last())
    }
}

/// (name, counts) pairs as plain values.
pub open spec fn pairs_view(v: Seq<(String, Vec<usize>)>) -> Seq<(Seq<char>, Seq<usize>)> {
    v.map_values(|p: (String, Vec<usize>)| (p.0@, p.1@))
}

/// `slice::sort_by_key` on the name: a stable sort by name.
#[verifier::external_body]
pub(crate) fn sort_named_counts(v: &mut Vec<(String, Vec<usize>)>)
    ensures
        pairs_view(final(v)@) == sort_pairs_by_name(pairs_view(old(v)@)),
{
    v.sort_by_key(|e| e.0.clone());
}

} // verus!
