//! Properties that hold across the library's operations.
use vstd::prelude::*;

use crate::error::S2Error;
use crate::decode::{
    add_ref, apply_events, insn_events_from, insn_refs_from, operand_ref, section_calls, section_events, section_insn,
    section_steps, InsnModel,
};
use crate::funcs::vfunc_scan;
use crate::objfile::{object_file_kind, object_section_data};
use crate::sections::spec_is_executable;
use crate::xrefs::{binary_calls, binary_events, section_calls_at, section_events_at, spec_bitness};
use crate::memory::{
    MemorySectionDescriptor, ModuleEntry, descriptor_le, insert_sorted, sort_descriptors, spec_module_from_pointer,
    spec_module_sections,
};
use crate::objfile::SectionRecord;
use crate::pattern::{is_first_match, masked_match_at, pattern_matches_at, pattern_search, wildcard_mask};
use crate::s2binlib::S2BinLib;
use crate::sections::{address_range_contains, file_range_contains, spec_file_offset_to_rva, spec_rva_to_file_offset};
use crate::sorted::is_sorted;
use crate::text::{ida_signature_text, trim_wildcards, unicode_lowercase, utf8_lossy};
use crate::strings::{MIN_STRING_LENGTH, is_printable, printable_runs, run_end, string_ranges};
use crate::vtable::{base_view, bases_view, vtable_view, CompleteObjectLocator, VTableInfo};
use crate::view::ImageView;
use crate::msvc::{spec_class_hierarchy, spec_msvc_vtable};
use crate::vtfind::{byte_len, spec_decorate_name, spec_decorate_nested_2};
use crate::s2binlib::is_windows;
use crate::objfile::FileKindModel;
use crate::funcs::combine_func_start;
use crate::text::{contains_chars, decimal};
use crate::vtdump::{children_loop, has_base_containing, is_new_child};

verus! {

broadcast use vstd::seq_lib::group_to_multiset_ensures;

/// Reading a binary after loading it gives back the loaded bytes: every
/// in-bounds read at a file offset returns that part of the data, and every
/// other read is refused as out of bounds.
pub proof fn law_read_after_load(before: S2BinLib, after: S2BinLib, name: Seq<char>, data: Seq<u8>)
    requires
        after.binaries_view() == before.binaries_view().insert(name, data),
    ensures
        forall|off: u64, size: usize| off + size <= data.len()
            ==> #[trigger] after.spec_read_at(name, off, size) == Ok::<Seq<u8>, S2Error>(data.subrange(off as int, off + size)),
        forall|off: u64, size: usize| off + size > data.len()
            ==> #[trigger] after.spec_read_at(name, off, size) == Err::<Seq<u8>, S2Error>(S2Error::ReadOutOfBounds),
{
}

/// Loading one binary leaves every read of the other binaries as it was.
pub proof fn law_load_keeps_others(before: S2BinLib, after: S2BinLib, name: Seq<char>, data: Seq<u8>, other: Seq<char>)
    requires
        after.binaries_view() == before.binaries_view().insert(name, data),
        other != name,
    ensures
        forall|off: u64, size: usize| #[trigger] after.spec_read_at(other, off, size) == before.spec_read_at(other, off, size),
{
}

/// After a binary is unloaded, every read of it fails as not loaded.
pub proof fn law_unload_forgets(before: S2BinLib, after: S2BinLib, name: Seq<char>)
    requires
        after.binaries_view() == before.binaries_view().remove(name),
    ensures
        forall|off: u64, size: usize| #[trigger] after.spec_read_at(name, off, size) == Err::<Seq<u8>, S2Error>(S2Error::BinaryNotFound),
{
}

/// Turning an address of a binary into a process address and back gives the
/// address again.
pub proof fn law_rva_mem_round_trip(lib: S2BinLib, name: Seq<char>, rva: u64)
    requires
        lib.spec_rva_to_mem(name, rva) is Ok,
    ensures
        lib.spec_mem_to_rva(name, lib.spec_rva_to_mem(name, rva)->Ok_0) == Ok::<u64, S2Error>(rva),
{
    let base = lib.spec_module_base(name)->Ok_0;
    let ib = lib.spec_image_base_of(name)->Ok_0;
    assert(rva.wrapping_sub(ib).wrapping_add(base).wrapping_sub(base).wrapping_add(ib) == rva);
}

/// Turning a process address into an address of a binary and back gives the
/// process address again.
pub proof fn law_mem_rva_round_trip(lib: S2BinLib, name: Seq<char>, address: u64)
    requires
        lib.spec_mem_to_rva(name, address) is Ok,
    ensures
        lib.spec_rva_to_mem(name, lib.spec_mem_to_rva(name, address)->Ok_0) == Ok::<u64, S2Error>(address),
{
    let base = lib.spec_module_base(name)->Ok_0;
    let ib = lib.spec_image_base_of(name)->Ok_0;
    assert(address.wrapping_sub(base).wrapping_add(ib).wrapping_sub(ib).wrapping_add(base) == address);
}

/// The call targets kept for every binary are in ascending order.
pub proof fn law_call_targets_sorted(lib: S2BinLib)
    requires
        lib.wf(),
    ensures
        forall|k: Seq<char>| #[trigger] lib.calls_targets_view().contains_key(k) ==> is_sorted(lib.calls_targets_view()[k]),
{
    lib.lemma_wf();
}

proof fn lemma_two_copies(v: Seq<u64>, i: int, j: int)
    requires
        0 <= i < j < v.len(),
        v[i] == v[j],
    ensures
        v.to_multiset().count(v[i]) >= 2,
{
    broadcast use vstd::multiset::group_multiset_axioms;
    let w = v.remove(j);
    assert(w[i] == v[i]);
    assert(w.contains(v[i]));
    assert(w.to_multiset().count(v[i]) > 0);
    assert(w.to_multiset() =~= v.to_multiset().remove(v[j]));
    assert(v.to_multiset().remove(v[j]).count(v[i]) > 0);
}

/// An element counted twice in a sequence occurs at two positions.
proof fn lemma_count_two(v: Seq<u64>, x: u64)
    requires
        v.to_multiset().count(x) >= 2,
    ensures
        exists|i: int, j: int| 0 <= i < j < v.len() && v[i] == x && v[j] == x,
{
    broadcast use vstd::multiset::group_multiset_axioms;
    broadcast use vstd::seq_lib::group_to_multiset_ensures;
    assert(v.contains(x));
    let i = choose|i: int| 0 <= i < v.len() && v[i] == x;
    let w = v.remove(i);
    assert(w.to_multiset() == v.to_multiset().remove(v[i]));
    assert(w.to_multiset().count(x) >= 1);
    assert(w.contains(x));
    let k = choose|k: int| 0 <= k < w.len() && w[k] == x;
    if k < i {
        assert(v[k] == w[k]);
    } else {
        assert(v[k + 1] == w[k]);
    }
}

/// With the call targets of a binary set from `targets`, the function start
/// found for an address is the address itself when it occurs at least twice
/// among them; otherwise it is the greatest target strictly below it, or 0
/// when every target lies above it.
pub proof fn law_nearest_call_target(lib: S2BinLib, name: Seq<char>, targets: Seq<u64>, x: u64, r: u64)
    requires
        lib.calls_targets_view().contains_key(name),
        lib.calls_targets_view()[name].to_multiset() == targets.to_multiset(),
        lib.spec_xref_func_start(name, x, r),
    ensures
        targets.to_multiset().count(x) >= 2 ==> r == x,
        targets.to_multiset().count(x) <= 1 ==> (r != 0 ==> targets.contains(r) && r < x),
        targets.to_multiset().count(x) <= 1 ==> forall|j: int| 0 <= j < targets.len() && targets[j] < x ==> targets[j] <= r,
{
    let v = lib.calls_targets_view()[name];
    if targets.to_multiset().count(x) >= 2 {
        lemma_count_two(v, x);
    } else {
        assert forall|j: int| 0 <= j < targets.len() && targets[j] < x implies targets[j] <= r by {
            assert(targets.contains(targets[j]));
            assert(targets.to_multiset().count(targets[j]) > 0);
            assert(v.contains(targets[j]));
            let k = choose|k: int| 0 <= k < v.len() && v[k] == targets[j];
            assert(v[k] < x);
        }
        if r != 0 {
            assert(v.contains(r));
            assert(v.to_multiset().count(r) > 0);
            assert(targets.contains(r));
            if r == x {
                let (i, j) = choose|i: int, j: int| 0 <= i < j < v.len() && v[i] == x && v[j] == x;
                lemma_two_copies(v, i, j);
                assert(false);
            }
        }
    }
}

proof fn lemma_least_match(s: Seq<u8>, p: Seq<u8>, m: Seq<u8>, k: int)
    requires
        masked_match_at(s, k, p, m),
    ensures
        exists|i: int| is_first_match(s, i, p, m),
    decreases k,
{
    if exists|k2: int| 0 <= k2 < k && masked_match_at(s, k2, p, m) {
        let k2 = choose|k2: int| 0 <= k2 < k && masked_match_at(s, k2, p, m);
        lemma_least_match(s, p, m, k2);
    } else {
        assert(is_first_match(s, k, p, m));
    }
}

/// A pattern search answers with the first position at which the pattern
/// matches, and finds nothing only for an empty pattern or one that matches
/// nowhere.
pub proof fn law_pattern_search_first(s: Seq<u8>, pattern: Seq<u8>, wildcards: Seq<usize>)
    ensures
        match pattern_search(s, pattern, wildcards) {
            Some(i) => pattern_matches_at(s, i, pattern, wildcards)
                && forall|k: int| 0 <= k < i ==> !pattern_matches_at(s, k, pattern, wildcards),
            None => pattern.len() == 0 || forall|k: int| !pattern_matches_at(s, k, pattern, wildcards),
        },
{
    let m = wildcard_mask(pattern.len(), wildcards);
    if pattern.len() > 0 && exists|k: int| masked_match_at(s, k, pattern, m) {
        let k = choose|k: int| masked_match_at(s, k, pattern, m);
        lemma_least_match(s, pattern, m, k);
        let i = choose|i: int| is_first_match(s, i, pattern, m);
        assert(is_first_match(s, i, pattern, m));
    }
}

/// The module's address range holds `ptr`.
pub open spec fn module_holds(m: ModuleEntry, ptr: u64) -> bool {
    m.base <= ptr < m.end
}

/// The module found for a pointer is the first, in the order given, whose
/// address range holds the pointer.
pub proof fn law_module_holds_pointer(modules: Seq<ModuleEntry>, ptr: u64)
    ensures
        match spec_module_from_pointer(modules, ptr) {
            Some((name, base)) => exists|i: int| 0 <= i < modules.len()
                && #[trigger] module_holds(modules[i], ptr) && modules[i].base == base && modules[i].name@ == name
                && forall|j: int| 0 <= j < i ==> !module_holds(modules[j], ptr),
            None => forall|i: int| 0 <= i < modules.len() ==> !module_holds(modules[i], ptr),
        },
    decreases modules.len(),
{
    if modules.len() > 0 {
        let rest = modules.drop_first();
        law_module_holds_pointer(rest, ptr);
        if !module_holds(modules[0], ptr) {
            match spec_module_from_pointer(rest, ptr) {
                Some((name, base)) => {
                    let i = choose|i: int| 0 <= i < rest.len()
                        && #[trigger] module_holds(rest[i], ptr) && rest[i].base == base && rest[i].name@ == name
                        && forall|j: int| 0 <= j < i ==> !module_holds(rest[j], ptr);
                    assert(modules[i + 1] == rest[i]);
                    assert forall|j: int| 0 <= j < i + 1 implies !module_holds(modules[j], ptr) by {
                        if j > 0 {
                            assert(modules[j] == rest[j - 1]);
                        }
                    }
                    assert(module_holds(modules[i + 1], ptr));
                },
                None => {
                    assert forall|i: int| 0 <= i < modules.len() implies !module_holds(modules[i], ptr) by {
                        if i > 0 {
                            assert(modules[i] == rest[i - 1]);
                        }
                    }
                },
            }
        } else {
            assert(module_holds(modules[0], ptr));
        }
    }
}

/// A section table whose ranges do not wrap around, whose sections hold no
/// more file bytes than they span in memory, and whose address ranges do
/// not overlap.
pub open spec fn sections_laid_out(secs: Seq<SectionRecord>) -> bool {
    &&& forall|i: int| 0 <= i < secs.len() ==> #[trigger] secs[i].address + secs[i].size <= u64::MAX
    &&& forall|i: int| 0 <= i < secs.len() && #[trigger] secs[i].file_range is Some ==> {
        let (start, size) = secs[i].file_range.unwrap();
        start + size <= u64::MAX && size <= secs[i].size
    }
    &&& forall|i: int, j: int| 0 <= i < secs.len() && 0 <= j < secs.len() && i != j
        ==> #[trigger] secs[i].address + secs[i].size <= #[trigger] secs[j].address
            || secs[j].address + secs[j].size <= secs[i].address
}

proof fn lemma_offset_section(secs: Seq<SectionRecord>, off: u64)
    requires
        spec_file_offset_to_rva(secs, off) is Some,
    ensures
        exists|i: int| 0 <= i < secs.len() && #[trigger] file_range_contains(secs[i], off)
            && spec_file_offset_to_rva(secs, off) == Some(secs[i].address.wrapping_add((off - secs[i].file_range.unwrap().0) as u64))
            && forall|j: int| 0 <= j < i ==> !file_range_contains(secs[j], off),
    decreases secs.len(),
{
    if !file_range_contains(secs[0], off) {
        let rest = secs.drop_first();
        lemma_offset_section(rest, off);
        let i = choose|i: int| 0 <= i < rest.len() && #[trigger] file_range_contains(rest[i], off)
            && spec_file_offset_to_rva(rest, off) == Some(rest[i].address.wrapping_add((off - rest[i].file_range.unwrap().0) as u64))
            && forall|j: int| 0 <= j < i ==> !file_range_contains(rest[j], off);
        assert(secs[i + 1] == rest[i]);
        assert forall|j: int| 0 <= j < i + 1 implies !file_range_contains(secs[j], off) by {
            if j > 0 {
                assert(secs[j] == rest[j - 1]);
            }
        }
        assert(file_range_contains(secs[i + 1], off));
    } else {
        assert(file_range_contains(secs[0], off));
    }
}

proof fn lemma_rva_section(secs: Seq<SectionRecord>, i: int, rva: u64)
    requires
        0 <= i < secs.len(),
        address_range_contains(secs[i], rva),
        secs[i].file_range is Some,
        forall|j: int| 0 <= j < i ==> !(address_range_contains(secs[j], rva) && secs[j].file_range is Some),
    ensures
        spec_rva_to_file_offset(secs, rva) == Some(secs[i].file_range.unwrap().0.wrapping_add((rva - secs[i].address) as u64)),
    decreases i,
{
    if i > 0 {
        let rest = secs.drop_first();
        assert(!(address_range_contains(secs[0], rva) && secs[0].file_range is Some));
        assert forall|j: int| 0 <= j < i - 1 implies !(address_range_contains(rest[j], rva) && rest[j].file_range is Some) by {
            assert(rest[j] == secs[j + 1]);
        }
        assert(rest[i - 1] == secs[i]);
        lemma_rva_section(rest, i - 1, rva);
    }
}

/// In a well laid out section table, the file offset of the address of a
/// file offset is that file offset again.
pub proof fn law_offset_rva_round_trip(secs: Seq<SectionRecord>, off: u64)
    requires
        sections_laid_out(secs),
        spec_file_offset_to_rva(secs, off) is Some,
    ensures
        spec_rva_to_file_offset(secs, spec_file_offset_to_rva(secs, off).unwrap()) == Some(off),
{
    lemma_offset_section(secs, off);
    let i = choose|i: int| 0 <= i < secs.len() && #[trigger] file_range_contains(secs[i], off)
        && spec_file_offset_to_rva(secs, off) == Some(secs[i].address.wrapping_add((off - secs[i].file_range.unwrap().0) as u64))
        && forall|j: int| 0 <= j < i ==> !file_range_contains(secs[j], off);
    let (start, size) = secs[i].file_range.unwrap();
    let v = spec_file_offset_to_rva(secs, off).unwrap();
    assert(secs[i].address + secs[i].size <= u64::MAX);
    assert(start + size <= u64::MAX && size <= secs[i].size);
    assert(v == secs[i].address + (off - start));
    assert(address_range_contains(secs[i], v));
    assert forall|j: int| 0 <= j < i implies !(address_range_contains(secs[j], v) && secs[j].file_range is Some) by {
        assert(secs[j].address + secs[j].size <= u64::MAX);
        if secs[i].address + secs[i].size <= secs[j].address {
        } else {
            assert(secs[j].address + secs[j].size <= secs[i].address);
        }
    }
    lemma_rva_section(secs, i, v);
}

/// The file offset of the address of a file offset of a loaded binary is
/// that file offset again, when its section table is well laid out.
pub proof fn law_binary_offset_rva_round_trip(lib: S2BinLib, name: Seq<char>, off: u64)
    requires
        lib.spec_sections(name) is Ok,
        sections_laid_out(lib.spec_sections(name)->Ok_0),
        lib.spec_offset_to_rva(name, off) is Ok,
    ensures
        lib.spec_rva_to_offset(name, lib.spec_offset_to_rva(name, off)->Ok_0) == Ok::<u64, S2Error>(off),
{
    law_offset_rva_round_trip(lib.spec_sections(name)->Ok_0, off);
}

/// The vtable slots scanned from slot `b` of vtable `a` on.
pub open spec fn slot_at_or_after(vts: Seq<VTableInfo>, a: int, b: int, i: int, j: int) -> bool {
    &&& 0 <= i < vts.len()
    &&& 0 <= j < vts[i].methods@.len()
    &&& (i > a || (i == a && j >= b))
}

proof fn lemma_vfunc_scan(vts: Seq<VTableInfo>, x: u64, a: int, b: int, best: Option<(int, int, u64)>)
    requires
        0 <= a,
        0 <= b,
        best matches Some((a0, b0, f0)) ==> 0 <= a0 < vts.len() && 0 <= b0 < vts[a0].methods@.len()
            && vts[a0].methods@[b0] == f0 && 0 < f0 < x,
    ensures
        ({
            let r = vfunc_scan(vts, x, a, b, best);
            let rv: u64 = match r { Some((_, _, f)) => f, None => 0 };
            let bv: u64 = match best { Some((_, _, f)) => f, None => 0 };
            &&& r is None ==> best is None
            &&& r matches Some((a1, b1, f1)) ==> 0 <= a1 < vts.len() && 0 <= b1 < vts[a1].methods@.len()
                && vts[a1].methods@[b1] == f1 && 0 < f1 < x
            &&& bv <= rv
            &&& forall|i: int, j: int| #[trigger] slot_at_or_after(vts, a, b, i, j) && vts[i].methods@[j] < x
                ==> vts[i].methods@[j] <= rv
        }),
    decreases vts.len() - a, (if 0 <= a < vts.len() { vts[a].methods@.len() - b } else { 0 }),
{
    if a >= vts.len() {
    } else if b >= vts[a].methods@.len() {
        lemma_vfunc_scan(vts, x, a + 1, 0, best);
        let r = vfunc_scan(vts, x, a, b, best);
        let rv: u64 = match r { Some((_, _, f)) => f, None => 0 };
        assert forall|i: int, j: int| #[trigger] slot_at_or_after(vts, a, b, i, j) && vts[i].methods@[j] < x
            implies vts[i].methods@[j] <= rv by {
            assert(slot_at_or_after(vts, a + 1, 0, i, j));
        }
    } else {
        let f = vts[a].methods@[b];
        let nearest: u64 = match best { Some((_, _, v)) => v, None => 0 };
        let next = if f > nearest && f < x { Some((a, b, f)) } else { best };
        lemma_vfunc_scan(vts, x, a, b + 1, next);
        let r = vfunc_scan(vts, x, a, b, best);
        let rv: u64 = match r { Some((_, _, f)) => f, None => 0 };
        assert forall|i: int, j: int| #[trigger] slot_at_or_after(vts, a, b, i, j) && vts[i].methods@[j] < x
            implies vts[i].methods@[j] <= rv by {
            if i == a && j == b {
            } else {
                assert(slot_at_or_after(vts, a, b + 1, i, j));
            }
        }
    }
}

/// The slot found as the nearest function start below `x` holds the
/// greatest slot address below `x`, and none is found only when every slot
/// address below `x` is 0.
pub proof fn law_nearest_vfunc(vts: Seq<VTableInfo>, x: u64)
    ensures
        match vfunc_scan(vts, x, 0, 0, None) {
            Some((a, b, f)) => 0 <= a < vts.len() && 0 <= b < vts[a].methods@.len() && vts[a].methods@[b] == f
                && 0 < f < x && forall|i: int, j: int| 0 <= i < vts.len() && 0 <= j < vts[i].methods@.len()
                    && #[trigger] vts[i].methods@[j] < x ==> vts[i].methods@[j] <= f,
            None => forall|i: int, j: int| 0 <= i < vts.len() && 0 <= j < vts[i].methods@.len()
                && #[trigger] vts[i].methods@[j] < x ==> vts[i].methods@[j] == 0,
        },
{
    lemma_vfunc_scan(vts, x, 0, 0, None);
    let rv: u64 = match vfunc_scan(vts, x, 0, 0, None) { Some((_, _, f)) => f, None => 0 };
    assert forall|i: int, j: int| 0 <= i < vts.len() && 0 <= j < vts[i].methods@.len()
        && #[trigger] vts[i].methods@[j] < x implies vts[i].methods@[j] <= rv by {
        assert(slot_at_or_after(vts, 0, 0, i, j));
    }
}

/// `(s, e)` is a run of at least four printable bytes of `d[i..end]` that
/// cannot be extended on either side within that range.
pub open spec fn is_string_run(d: Seq<u8>, i: int, end: int, s: int, e: int) -> bool {
    &&& i <= s
    &&& e <= end
    &&& e - s >= MIN_STRING_LENGTH
    &&& forall|k: int| s <= k < e ==> #[trigger] is_printable(d[k])
    &&& (e == end || !is_printable(d[e]))
    &&& (s == i || !is_printable(d[s - 1]))
}

proof fn lemma_run_end(d: Seq<u8>, i: int, end: int)
    requires
        i <= end <= d.len(),
    ensures
        i <= run_end(d, i, end) <= end,
        forall|k: int| i <= k < run_end(d, i, end) ==> #[trigger] is_printable(d[k]),
        run_end(d, i, end) == end || !is_printable(d[run_end(d, i, end)]),
    decreases end - i,
{
    if i < end && is_printable(d[i]) {
        lemma_run_end(d, i + 1, end);
    }
}

proof fn lemma_printable_runs(d: Seq<u8>, lo: int, i: int, end: int)
    requires
        0 <= lo <= i <= end <= d.len(),
        i == lo || i == end || !is_printable(d[i - 1]) || !is_printable(d[i]),
    ensures
        forall|k: int| 0 <= k < printable_runs(d, i, end).len()
            ==> is_string_run(d, lo, end, #[trigger] printable_runs(d, i, end)[k].0, printable_runs(d, i, end)[k].1)
                && i <= printable_runs(d, i, end)[k].0,
        forall|k: int, l: int| 0 <= k < l < printable_runs(d, i, end).len()
            ==> #[trigger] printable_runs(d, i, end)[k].1 < #[trigger] printable_runs(d, i, end)[l].0,
    decreases end - i,
{
    if i < end {
        if !is_printable(d[i]) {
            lemma_printable_runs(d, lo, i + 1, end);
            assert(printable_runs(d, i, end) == printable_runs(d, i + 1, end));
        } else {
            lemma_run_end(d, i, end);
            let e = run_end(d, i, end);
            if e == end {
                assert(printable_runs(d, e, end).len() == 0);
            } else {
                lemma_printable_runs(d, lo, e, end);
            }
            let here: Seq<(int, int)> = if e - i >= MIN_STRING_LENGTH { seq![(i, e)] } else { Seq::empty() };
            let rest = printable_runs(d, e, end);
            assert(printable_runs(d, i, end) == here + rest);
            let all = here + rest;
            assert forall|k: int| 0 <= k < all.len()
                implies is_string_run(d, lo, end, #[trigger] all[k].0, all[k].1) && i <= all[k].0 by {
                if k >= here.len() {
                    assert(all[k] == rest[k - here.len()]);
                }
            }
            assert forall|k: int, l: int| 0 <= k < l < all.len() implies #[trigger] all[k].1 < #[trigger] all[l].0 by {
                if k >= here.len() {
                    assert(all[k] == rest[k - here.len()]);
                }
                assert(all[l] == rest[l - here.len()]);
                if e < end {
                    assert(rest[l - here.len()].0 >= e);
                    if rest[l - here.len()].0 == e {
                        assert(is_printable(d[e]));
                    }
                }
            }
        }
    }
}

/// The strings found in the byte range `[lo, end)` are its maximal runs of
/// at least four printable ASCII bytes, in ascending order and apart from
/// one another.
pub proof fn law_printable_runs(d: Seq<u8>, lo: int, end: int)
    requires
        0 <= lo <= end <= d.len(),
    ensures
        forall|k: int| 0 <= k < printable_runs(d, lo, end).len()
            ==> is_string_run(d, lo, end, #[trigger] printable_runs(d, lo, end)[k].0, printable_runs(d, lo, end)[k].1),
        forall|k: int, l: int| 0 <= k < l < printable_runs(d, lo, end).len()
            ==> #[trigger] printable_runs(d, lo, end)[k].1 < #[trigger] printable_runs(d, lo, end)[l].0,
{
    lemma_printable_runs(d, lo, lo, end);
}

proof fn lemma_string_ranges(t: Seq<SectionRecord>, len: nat, i: int)
    requires
        0 <= i,
    ensures
        forall|j: int| 0 <= j < string_ranges(t, len, i).len()
            ==> #[trigger] string_ranges(t, len, i)[j].0 < string_ranges(t, len, i)[j].1 <= len,
    decreases t.len() - i,
{
    if i < t.len() {
        lemma_string_ranges(t, len, i + 1);
        let all = string_ranges(t, len, i);
        let rest = string_ranges(t, len, i + 1);
        assert forall|j: int| 0 <= j < all.len() implies #[trigger] all[j].0 < all[j].1 <= len by {
            let here_len = all.len() - rest.len();
            if j >= here_len {
                assert(all[j] == rest[j - here_len]);
            }
        }
    }
}

/// The ranges that dumping a binary scans for strings are non-empty and lie
/// in the file, and in each the strings recorded (`runs_of_ranges` takes
/// them range by range) are its maximal runs of at least four printable
/// ASCII bytes, in ascending order.
pub proof fn law_dumped_string_runs(t: Seq<SectionRecord>, d: Seq<u8>)
    ensures
        forall|j: int| 0 <= j < string_ranges(t, d.len(), 0).len()
            ==> #[trigger] string_ranges(t, d.len(), 0)[j].0 < string_ranges(t, d.len(), 0)[j].1 <= d.len(),
        forall|j: int, k: int| 0 <= j < string_ranges(t, d.len(), 0).len()
            && 0 <= k < printable_runs(d, string_ranges(t, d.len(), 0)[j].0 as int, string_ranges(t, d.len(), 0)[j].1 as int).len()
            ==> is_string_run(
                d,
                string_ranges(t, d.len(), 0)[j].0 as int,
                string_ranges(t, d.len(), 0)[j].1 as int,
                #[trigger] printable_runs(d, string_ranges(t, d.len(), 0)[j].0 as int, string_ranges(t, d.len(), 0)[j].1 as int)[k].0,
                printable_runs(d, string_ranges(t, d.len(), 0)[j].0 as int, string_ranges(t, d.len(), 0)[j].1 as int)[k].1,
            ),
{
    let ranges = string_ranges(t, d.len(), 0);
    lemma_string_ranges(t, d.len(), 0);
    assert forall|j: int, k: int| 0 <= j < ranges.len()
        && 0 <= k < printable_runs(d, ranges[j].0 as int, ranges[j].1 as int).len()
        implies is_string_run(d, ranges[j].0 as int, ranges[j].1 as int,
            #[trigger] printable_runs(d, ranges[j].0 as int, ranges[j].1 as int)[k].0,
            printable_runs(d, ranges[j].0 as int, ranges[j].1 as int)[k].1) by {
        law_printable_runs(d, ranges[j].0 as int, ranges[j].1 as int);
    }
}

/// The descriptors are in ascending (address, index) order.
pub open spec fn descriptors_sorted(s: Seq<MemorySectionDescriptor>) -> bool {
    forall|i: int, j: int| 0 <= i < j < s.len() ==> descriptor_le(#[trigger] s[i], #[trigger] s[j])
}

proof fn lemma_insert_sorted(s: Seq<MemorySectionDescriptor>, x: MemorySectionDescriptor)
    requires
        descriptors_sorted(s),
    ensures
        descriptors_sorted(insert_sorted(s, x)),
        insert_sorted(s, x).len() == s.len() + 1,
        forall|k: int| 0 <= k < insert_sorted(s, x).len()
            ==> #[trigger] insert_sorted(s, x)[k] == x || s.contains(insert_sorted(s, x)[k]),
    decreases s.len(),
{
    if s.len() > 0 {
        if descriptor_le(s.last(), x) {
            let r = s.push(x);
            assert forall|i: int, j: int| 0 <= i < j < r.len() implies descriptor_le(#[trigger] r[i], #[trigger] r[j]) by {
                if j == s.len() {
                    if i < s.len() - 1 {
                        assert(descriptor_le(s[i], s[s.len() - 1]));
                    }
                }
            }
            assert forall|k: int| 0 <= k < r.len() implies #[trigger] r[k] == x || s.contains(r[k]) by {
                if k < s.len() {
                    assert(r[k] == s[k]);
                }
            }
        } else {
            let p = s.drop_last();
            lemma_insert_sorted(p, x);
            let q = insert_sorted(p, x);
            let r = q.push(s.last());
            assert forall|i: int, j: int| 0 <= i < j < r.len() implies descriptor_le(#[trigger] r[i], #[trigger] r[j]) by {
                if j == q.len() {
                    if q[i] != x {
                        assert(p.contains(q[i]));
                        let m = choose|m: int| 0 <= m < p.len() && p[m] == q[i];
                        assert(s[m] == p[m]);
                        assert(descriptor_le(s[m], s[s.len() - 1]));
                    }
                }
            }
            assert forall|k: int| 0 <= k < r.len() implies #[trigger] r[k] == x || s.contains(r[k]) by {
                if k < q.len() {
                    if r[k] != x {
                        assert(p.contains(q[k]));
                        let m = choose|m: int| 0 <= m < p.len() && p[m] == q[k];
                        assert(s[m] == p[m]);
                    }
                } else {
                    assert(s[s.len() - 1] == s.last());
                }
            }
        }
    } else {
        assert(insert_sorted(s, x) == seq![x]);
    }
}

proof fn lemma_sort_descriptors(s: Seq<MemorySectionDescriptor>)
    ensures
        descriptors_sorted(sort_descriptors(s)),
        sort_descriptors(s).len() == s.len(),
    decreases s.len(),
{
    if s.len() > 0 {
        lemma_sort_descriptors(s.drop_last());
        lemma_insert_sorted(sort_descriptors(s.drop_last()), s.last());
    }
}

/// The sections of a module image come in ascending (address, index) order.
pub proof fn law_module_sections_sorted(secs: Seq<SectionRecord>, data_len: nat, image_base: u64)
    ensures
        descriptors_sorted(spec_module_sections(secs, data_len, image_base)),
{
    lemma_sort_descriptors(crate::memory::section_descriptors(secs, data_len, image_base));
}

/// Byte `k` of the code at file offset `start` (address `rva`) is where an
/// instruction starts (or the last one before it ends) when decoding goes
/// instruction by instruction from byte `pos`.
pub open spec fn insn_boundary(d: Seq<u8>, bitness: u32, start: int, rva: u64, pos: int, k: int) -> bool
    decreases k - pos,
{
    if k == pos {
        true
    } else if pos < k && 0 <= start + pos < d.len() {
        let ins = crate::decode::x86_decode(bitness, d.subrange(start + pos, d.len() as int), rva.wrapping_add(pos as u64));
        if ins.len == 0 || pos + ins.len > k {
            false
        } else {
            insn_boundary(d, bitness, start, rva, pos + ins.len, k)
        }
    } else {
        false
    }
}

/// The signature entries of the whole instructions of the code at file
/// offset `start` (address `rva`) from byte `pos` up to byte `k`, decoded one
/// after the other: each instruction's bytes, with its displacement and
/// nonzero immediates as wildcards.
pub open spec fn insn_sig_chain(d: Seq<u8>, bitness: u32, start: int, rva: u64, pos: int, k: int) -> Seq<(u8, bool)>
    decreases k - pos,
{
    if pos < k && 0 <= start + pos < d.len() {
        let code = d.subrange(start + pos, d.len() as int);
        let ip = rva.wrapping_add(pos as u64);
        let ins = crate::decode::x86_decode(bitness, code, ip);
        if ins.len == 0 || pos + ins.len > k {
            Seq::empty()
        } else {
            crate::sig::insn_sig(d, start + pos, ins.len as int, crate::decode::x86_constant_offsets(bitness, code, ip))
                + insn_sig_chain(d, bitness, start, rva, pos + ins.len, k)
        }
    } else {
        Seq::empty()
    }
}

/// The signature grown from `sig` (which is `pos` bytes long, and not
/// unique when not empty) ends as a unique signature that extends `sig` and
/// whose prefixes ending at an instruction start are not unique.
proof fn lemma_sig_from(lib: S2BinLib, bin: Seq<char>, bitness: u32, start: int, rva: u64, sig: Seq<(u8, bool)>, pos: int)
    requires
        lib.spec_sig_from(bin, bitness, start, rva, sig, pos) is Ok,
        0 <= pos,
        0 <= start,
        sig.len() == pos,
        pos > 0 ==> !lib.spec_sig_unique(bin, sig),
    ensures
        exists|full: Seq<(u8, bool)>| #[trigger] lib.spec_sig_unique(bin, full)
            && lib.spec_sig_from(bin, bitness, start, rva, sig, pos)->Ok_0 == ida_signature_text(trim_wildcards(full))
            && pos <= full.len()
            && full.take(pos) == sig
            && full == sig + insn_sig_chain(lib.binaries_view()[bin], bitness, start, rva, pos, full.len() as int)
            && insn_boundary(lib.binaries_view()[bin], bitness, start, rva, pos, full.len() as int)
            && forall|k: int| 0 < k < full.len() && pos <= k
                && #[trigger] insn_boundary(lib.binaries_view()[bin], bitness, start, rva, pos, k)
                ==> !lib.spec_sig_unique(bin, full.take(k)),
    decreases lib.binaries_view()[bin].len() - start - pos,
{
    let d = lib.binaries_view()[bin];
    let code = d.subrange(start + pos, d.len() as int);
    let ip = rva.wrapping_add(pos as u64);
    let ins = crate::decode::x86_decode(bitness, code, ip);
    let next = sig + crate::sig::insn_sig(d, start + pos, ins.len as int, crate::decode::x86_constant_offsets(bitness, code, ip));
    assert(next.len() == pos + ins.len);
    assert(next.take(pos) =~= sig);
    if !lib.spec_sig_unique(bin, next) {
        lemma_sig_from(lib, bin, bitness, start, rva, next, pos + ins.len);
        let full = choose|full: Seq<(u8, bool)>| #[trigger] lib.spec_sig_unique(bin, full)
            && lib.spec_sig_from(bin, bitness, start, rva, next, pos + ins.len)->Ok_0 == ida_signature_text(trim_wildcards(full))
            && pos + ins.len <= full.len()
            && full.take(pos + ins.len) == next
            && full == next + insn_sig_chain(d, bitness, start, rva, pos + ins.len, full.len() as int)
            && insn_boundary(d, bitness, start, rva, pos + ins.len, full.len() as int)
            && forall|k: int| 0 < k < full.len() && pos + ins.len <= k
                && #[trigger] insn_boundary(d, bitness, start, rva, pos + ins.len, k)
                ==> !lib.spec_sig_unique(bin, full.take(k));
        assert(full.take(pos) =~= full.take(pos + ins.len).take(pos));
        assert(insn_boundary(d, bitness, start, rva, pos, full.len() as int));
        let piece = crate::sig::insn_sig(d, start + pos, ins.len as int, crate::decode::x86_constant_offsets(bitness, code, ip));
        let tail = insn_sig_chain(d, bitness, start, rva, pos + ins.len, full.len() as int);
        assert(insn_sig_chain(d, bitness, start, rva, pos, full.len() as int) == piece + tail);
        assert(full =~= sig + (piece + tail));
        assert forall|k: int| 0 < k < full.len() && pos <= k
            && #[trigger] insn_boundary(d, bitness, start, rva, pos, k) implies !lib.spec_sig_unique(bin, full.take(k)) by {
            if k != pos {
                assert(insn_boundary(d, bitness, start, rva, pos + ins.len, k));
                if k < pos + ins.len {
                    assert(!insn_boundary(d, bitness, start, rva, pos + ins.len, k));
                }
            }
        }
    } else {
        assert forall|k: int| 0 < k < next.len() && pos <= k
            && #[trigger] insn_boundary(d, bitness, start, rva, pos, k) implies !lib.spec_sig_unique(bin, next.take(k)) by {
            if k != pos {
                assert(insn_boundary(d, bitness, start, rva, pos + ins.len, k));
                assert(!insn_boundary(d, bitness, start, rva, pos + ins.len, k));
            }
        }
        assert(lib.spec_sig_unique(bin, next));
        let piece = crate::sig::insn_sig(d, start + pos, ins.len as int, crate::decode::x86_constant_offsets(bitness, code, ip));
        assert(insn_boundary(d, bitness, start, rva, pos + ins.len, next.len() as int));
        assert(insn_boundary(d, bitness, start, rva, pos, next.len() as int));
        assert(insn_sig_chain(d, bitness, start, rva, pos + ins.len, next.len() as int) =~= Seq::<(u8, bool)>::empty());
        assert(insn_sig_chain(d, bitness, start, rva, pos, next.len() as int) =~= piece);
        assert(next =~= sig + piece);
        assert(next.take(pos) =~= sig);
    }
}

/// A signature made for a function is made of the function's own whole
/// instructions, decoded one after the other from its start (bytes, with
/// displacements and nonzero immediates as wildcards); it matches exactly
/// once in its binary (a scan for it, before its trailing wildcards are
/// dropped, hits once and then no more); and it is the shortest such: every
/// shorter one that ends at an instruction start matches more than once or
/// not at all.
pub proof fn law_signature_unique(lib: S2BinLib, bin: Seq<char>, func_rva: u64)
    requires
        lib.spec_make_sig(bin, func_rva) is Ok,
    ensures
        exists|full: Seq<(u8, bool)>| #[trigger] lib.spec_sig_unique(bin, full)
            && lib.spec_make_sig(bin, func_rva)->Ok_0 == ida_signature_text(trim_wildcards(full))
            && full == insn_sig_chain(lib.binaries_view()[bin], spec_bitness(object_file_kind(lib.binaries_view()[bin])->Some_0)->Some_0,
                lib.spec_rva_to_offset(bin, func_rva)->Ok_0 as int, func_rva, 0, full.len() as int)
            && insn_boundary(lib.binaries_view()[bin], spec_bitness(object_file_kind(lib.binaries_view()[bin])->Some_0)->Some_0,
                lib.spec_rva_to_offset(bin, func_rva)->Ok_0 as int, func_rva, 0, full.len() as int)
            && forall|k: int| 0 < k < full.len()
                && #[trigger] insn_boundary(lib.binaries_view()[bin], spec_bitness(object_file_kind(lib.binaries_view()[bin])->Some_0)->Some_0,
                    lib.spec_rva_to_offset(bin, func_rva)->Ok_0 as int, func_rva, 0, k)
                ==> !lib.spec_sig_unique(bin, full.take(k)),
{
    let d = lib.binaries_view()[bin];
    let k = object_file_kind(d)->Some_0;
    let b = spec_bitness(k)->Some_0;
    let off = lib.spec_rva_to_offset(bin, func_rva)->Ok_0;
    lemma_sig_from(lib, bin, b, off as int, func_rva, Seq::empty(), 0);
    let full = choose|full: Seq<(u8, bool)>| #[trigger] lib.spec_sig_unique(bin, full)
        && lib.spec_sig_from(bin, b, off as int, func_rva, Seq::empty(), 0)->Ok_0 == ida_signature_text(trim_wildcards(full))
        && 0 <= full.len()
        && full.take(0) == Seq::<(u8, bool)>::empty()
        && full == Seq::<(u8, bool)>::empty() + insn_sig_chain(d, b, off as int, func_rva, 0, full.len() as int)
        && insn_boundary(d, b, off as int, func_rva, 0, full.len() as int)
        && forall|k: int| 0 < k < full.len() && 0 <= k
            && #[trigger] insn_boundary(d, b, off as int, func_rva, 0, k)
            ==> !lib.spec_sig_unique(bin, full.take(k));
    assert(Seq::<(u8, bool)>::empty() + insn_sig_chain(d, b, off as int, func_rva, 0, full.len() as int)
        =~= insn_sig_chain(d, b, off as int, func_rva, 0, full.len() as int));
}

/// The targets of (target, instruction) pairs.
pub open spec fn event_targets(ev: Seq<(u64, u64)>) -> Seq<u64> {
    ev.map_values(|e: (u64, u64)| e.0)
}

proof fn lemma_event_targets_concat(a: Seq<(u64, u64)>, b: Seq<(u64, u64)>)
    ensures
        event_targets(a + b) == event_targets(a) + event_targets(b),
{
    assert(event_targets(a + b) =~= event_targets(a) + event_targets(b));
}

proof fn lemma_insn_refs(ins: InsnModel, bitness: u32, image_base: u64, ip: u64, k: int)
    requires
        0 <= k,
    ensures
        insn_refs_from(ins, bitness, image_base, k) == event_targets(insn_events_from(ins, bitness, image_base, ip, k)),
    decreases ins.op_kinds@.len() - k,
{
    if k < ins.op_kinds@.len() {
        lemma_insn_refs(ins, bitness, image_base, ip, k + 1);
        match operand_ref(ins, bitness, image_base, k) {
            Some(t) => {
                lemma_event_targets_concat(seq![(t, ip)], insn_events_from(ins, bitness, image_base, ip, k + 1));
                assert(event_targets(seq![(t, ip)]) =~= seq![t]);
            },
            None => {},
        }
    } else {
        assert(event_targets(Seq::<(u64, u64)>::empty()) =~= Seq::<u64>::empty());
    }
}

proof fn lemma_section_calls(bitness: u32, code: Seq<u8>, rva: u64, image_base: u64, pos: int)
    requires
        0 <= pos,
    ensures
        forall|t: u64| section_calls(bitness, code, rva, image_base, pos).contains(t)
            ==> #[trigger] event_targets(section_events(bitness, code, rva, image_base, pos)).contains(t),
    decreases code.len() - pos,
{
    if section_steps(bitness, code, rva, pos) {
        let ins = section_insn(bitness, code, rva, pos);
        lemma_section_calls(bitness, code, rva, image_base, pos + ins.len);
        let ip = rva.wrapping_add(pos as u64);
        let ev_here = if ins.invalid { Seq::empty() } else { insn_events_from(ins, bitness, image_base, ip, 0) };
        let ev_rest = section_events(bitness, code, rva, image_base, pos + ins.len);
        let c_here = if ins.invalid || !(ins.call_far || ins.call_near) { Seq::empty() } else { insn_refs_from(ins, bitness, image_base, 0) };
        let c_rest = section_calls(bitness, code, rva, image_base, pos + ins.len);
        lemma_insn_refs(ins, bitness, image_base, ip, 0);
        lemma_event_targets_concat(ev_here, ev_rest);
        assert(section_events(bitness, code, rva, image_base, pos) == ev_here + ev_rest);
        assert(section_calls(bitness, code, rva, image_base, pos) == c_here + c_rest);
        assert forall|t: u64| section_calls(bitness, code, rva, image_base, pos).contains(t)
            implies #[trigger] event_targets(section_events(bitness, code, rva, image_base, pos)).contains(t) by {
            let all = c_here + c_rest;
            let i = choose|i: int| 0 <= i < all.len() && all[i] == t;
            let et = event_targets(ev_here) + event_targets(ev_rest);
            if i < c_here.len() {
                assert(c_here == event_targets(ev_here));
                assert(et[i] == t);
            } else {
                assert(c_rest[i - c_here.len()] == t);
                assert(c_rest.contains(t));
                assert(event_targets(ev_rest).contains(t));
                let j = choose|j: int| 0 <= j < event_targets(ev_rest).len() && event_targets(ev_rest)[j] == t;
                assert(et[event_targets(ev_here).len() + j] == t);
            }
        }
    }
}

proof fn lemma_binary_calls(d: Seq<u8>, t: Seq<SectionRecord>, bitness: u32, image_base: u64, i: int)
    requires
        0 <= i,
    ensures
        forall|x: u64| binary_calls(d, t, bitness, image_base, i).contains(x)
            ==> #[trigger] event_targets(binary_events(d, t, bitness, image_base, i)).contains(x),
    decreases t.len() - i,
{
    if i < t.len() {
        lemma_binary_calls(d, t, bitness, image_base, i + 1);
        let eh = section_events_at(d, t, bitness, image_base, i);
        let er = binary_events(d, t, bitness, image_base, i + 1);
        let ch = section_calls_at(d, t, bitness, image_base, i);
        let cr = binary_calls(d, t, bitness, image_base, i + 1);
        if spec_is_executable(t[i].flags) {
            match object_section_data(d, i as usize) {
                Some(sd) => lemma_section_calls(bitness, sd, t[i].address, image_base, 0),
                None => {},
            }
        }
        lemma_event_targets_concat(eh, er);
        assert forall|x: u64| binary_calls(d, t, bitness, image_base, i).contains(x)
            implies #[trigger] event_targets(binary_events(d, t, bitness, image_base, i)).contains(x) by {
            let all = ch + cr;
            let et = event_targets(eh) + event_targets(er);
            let k = choose|k: int| 0 <= k < all.len() && all[k] == x;
            if k < ch.len() {
                assert(ch.contains(x));
                assert(event_targets(eh).contains(x));
                let j = choose|j: int| 0 <= j < event_targets(eh).len() && event_targets(eh)[j] == x;
                assert(et[j] == x);
            } else {
                assert(cr[k - ch.len()] == x);
                assert(cr.contains(x));
                assert(event_targets(er).contains(x));
                let j = choose|j: int| 0 <= j < event_targets(er).len() && event_targets(er)[j] == x;
                assert(et[event_targets(eh).len() + j] == x);
            }
        }
    }
}

proof fn lemma_apply_events_keys(m: Map<u64, Seq<u64>>, ev: Seq<(u64, u64)>)
    ensures
        forall|x: u64| m.contains_key(x) || event_targets(ev).contains(x) ==> #[trigger] apply_events(m, ev).contains_key(x),
    decreases ev.len(),
{
    if ev.len() > 0 {
        let m2 = add_ref(m, ev[0].0, ev[0].1);
        lemma_apply_events_keys(m2, ev.drop_first());
        assert(apply_events(m, ev) == apply_events(m2, ev.drop_first()));
        assert forall|x: u64| m.contains_key(x) || event_targets(ev).contains(x) implies #[trigger] apply_events(m, ev).contains_key(x) by {
            if m.contains_key(x) || x == ev[0].0 {
                assert(m2.contains_key(x));
            } else {
                let j = choose|j: int| 0 <= j < event_targets(ev).len() && event_targets(ev)[j] == x;
                assert(j > 0);
                assert(event_targets(ev.drop_first())[j - 1] == x);
                assert(event_targets(ev.drop_first()).contains(x));
            }
        }
    }
}

/// After the cross-references of a binary are dumped, every call target
/// cached for it is a key of its cross-reference table (the call
/// instruction itself refers to it).
pub proof fn law_call_targets_have_xrefs(before: S2BinLib, after: S2BinLib, name: Seq<char>, ev: Seq<(u64, u64)>, cs: Seq<u64>)
    requires
        before.spec_xref_scan(name) == Ok::<(Seq<(u64, u64)>, Seq<u64>), S2Error>((ev, cs)),
        after.xrefs_view().contains_key(name),
        after.xrefs_view()[name] == apply_events(Map::empty(), ev),
        after.calls_targets_view().contains_key(name),
        after.calls_targets_view()[name].to_multiset() == cs.to_multiset(),
    ensures
        forall|x: u64| after.calls_targets_view()[name].contains(x) ==> #[trigger] after.xrefs_view()[name].contains_key(x),
{
    let ib = before.spec_image_base_of(name)->Ok_0;
    let d = before.binaries_view()[name];
    let bitness = match object_file_kind(d) {
        Some(k) => match spec_bitness(k) {
            Some(b) => b,
            None => 0,
        },
        None => 0,
    };
    let t = before.spec_sections(name)->Ok_0;
    assert(ev == binary_events(d, t, bitness, ib, 0));
    assert(cs == binary_calls(d, t, bitness, ib, 0));
    lemma_binary_calls(d, t, bitness, ib, 0);
    lemma_apply_events_keys(Map::empty(), ev);
    let v = after.calls_targets_view()[name];
    assert forall|x: u64| v.contains(x) implies #[trigger] after.xrefs_view()[name].contains_key(x) by {
        assert(v.to_multiset().count(x) > 0);
        assert(cs.contains(x));
        assert(event_targets(ev).contains(x));
    }
}

/// A module base set by hand for a library is what its base lookup then
/// returns; the bases of other libraries stay as they were while the
/// process modules and the OS do.
pub proof fn law_module_base_set(before: S2BinLib, after: S2BinLib, lib_name: Seq<char>, base: u64)
    requires
        after.manual_bases_view() == before.manual_bases_view().insert(lib_name, base),
        after.process_modules_view() == before.process_modules_view(),
        after.os_view() == before.os_view(),
    ensures
        after.spec_module_base(lib_name) == Ok::<u64, S2Error>(base),
        forall|other: Seq<char>| other != lib_name ==> #[trigger] after.spec_module_base(other) == before.spec_module_base(other),
{
}

/// A path set by hand for a binary on the library's own OS (Windows or
/// Linux, without regard to case) is the path the library then gives for it.
pub proof fn law_custom_path_used(before: S2BinLib, after: S2BinLib, name: Seq<char>, path: Seq<char>)
    requires
        after.os_view() == before.os_view(),
        unicode_lowercase(after.os_view()) == "windows"@ ==> after.custom_windows_view() == before.custom_windows_view().insert(name, path),
        unicode_lowercase(after.os_view()) == "linux"@ ==> after.custom_linux_view() == before.custom_linux_view().insert(name, path),
        unicode_lowercase(after.os_view()) == "windows"@ || unicode_lowercase(after.os_view()) == "linux"@,
    ensures
        after.spec_binary_path(name) == path,
{
    assert("windows"@ != "linux"@) by {
        reveal_strlit("windows");
        reveal_strlit("linux");
        assert("windows"@.len() != "linux"@.len());
    }
}

/// Without a path set by hand for the library's own OS, a binary's path is
/// the default layout; paths set for the other OS play no part.
pub proof fn law_default_binary_path(lib: S2BinLib, name: Seq<char>)
    requires
        unicode_lowercase(lib.os_view()) == "windows"@ ==> !lib.custom_windows_view().contains_key(name),
        unicode_lowercase(lib.os_view()) == "linux"@ ==> !lib.custom_linux_view().contains_key(name),
    ensures
        lib.spec_binary_path(name) == lib.default_binary_path(name),
{
}

/// The function start found through the padding before an address wins
/// over the nearest call target and the nearest vtable slot, whatever they
/// are.
pub proof fn law_padding_start_wins(xref: u64, vfunc: u64, start: u64)
    requires
        start != 0,
    ensures
        crate::funcs::combine_func_start(xref, vfunc, Some(start)) == Ok::<u64, S2Error>(start),
{
}

/// In sorted call targets the call target before `x` is determined: any
/// two answers agree.
pub proof fn law_prev_target_unique(v: Seq<u64>, x: u64, r1: u64, r2: u64)
    requires
        is_sorted(v),
        crate::xrefs::is_prev_target(v, x, r1),
        crate::xrefs::is_prev_target(v, x, r2),
    ensures
        r1 == r2,
{
    if v.contains(r1) && r1 < x && v.contains(r2) && r2 < x {
        let a = choose|a: int| 0 <= a < v.len() && v[a] == r1;
        let b = choose|b: int| 0 <= b < v.len() && v[b] == r2;
        assert(v[a] <= r2);
        assert(v[b] <= r1);
    }
    if r1 != 0 && !(forall|j: int| 0 <= j < v.len() ==> v[j] >= x) {
        assert(v.contains(r1));
    }
    if r2 != 0 && !(forall|j: int| 0 <= j < v.len() ==> v[j] >= x) {
        assert(v.contains(r2));
    }
}

/// The one instruction that refers to a string is the single entry of the
/// cross-reference list of the string's first occurrence; no list, an
/// empty one or a longer one give the two errors.
pub proof fn law_string_reference(lib: S2BinLib, bin: Seq<char>, bytes: Seq<u8>)
    ensures
        match lib.spec_find_string_rva(bin, bytes) {
            Err(e) => lib.spec_string_ref(bin, bytes) == Err::<u64, S2Error>(e),
            Ok(sr) => if lib.xrefs_view().contains_key(bin) && lib.xrefs_view()[bin].contains_key(sr)
                && lib.xrefs_view()[bin][sr].len() == 1 {
                lib.spec_string_ref(bin, bytes) == Ok::<u64, S2Error>(lib.xrefs_view()[bin][sr][0])
            } else if lib.xrefs_view().contains_key(bin) && lib.xrefs_view()[bin].contains_key(sr)
                && lib.xrefs_view()[bin][sr].len() > 1 {
                lib.spec_string_ref(bin, bytes) == Err::<u64, S2Error>(S2Error::MultipleStringReferences)
            } else {
                lib.spec_string_ref(bin, bytes) == Err::<u64, S2Error>(S2Error::StringReferenceNotFound)
            },
        },
{
}

/// The run `run` of binary `bin` is recorded as `key` with address `v`:
/// its first byte has address `v` and its bytes read as `key`.
pub open spec fn run_recorded(lib: S2BinLib, bin: Seq<char>, run: (int, int), key: Seq<char>, v: u64) -> bool {
    &&& lib.spec_offset_to_rva(bin, run.0 as u64) == Ok::<u64, S2Error>(v)
    &&& key == utf8_lossy(lib.binaries_view()[bin].subrange(run.0, run.1))
}

proof fn lemma_record_runs(lib: S2BinLib, bin: Seq<char>, m: Map<Seq<char>, u64>, runs: Seq<(int, int)>)
    ensures
        forall|key: Seq<char>| #[trigger] lib.record_runs(bin, m, runs).contains_key(key) ==>
            (m.contains_key(key) && lib.record_runs(bin, m, runs)[key] == m[key])
            || exists|x: int| 0 <= x < runs.len() && #[trigger] run_recorded(lib, bin, runs[x], key, lib.record_runs(bin, m, runs)[key]),
    decreases runs.len(),
{
    if runs.len() > 0 {
        let (s0, e0) = runs[0];
        let next = match lib.spec_offset_to_rva(bin, s0 as u64) {
            Ok(rva) => m.insert(utf8_lossy(lib.binaries_view()[bin].subrange(s0, e0)), rva),
            Err(_) => m,
        };
        let rest = runs.drop_first();
        lemma_record_runs(lib, bin, next, rest);
        let out = lib.record_runs(bin, m, runs);
        assert(out == lib.record_runs(bin, next, rest));
        assert forall|key: Seq<char>| #[trigger] out.contains_key(key) implies
            (m.contains_key(key) && out[key] == m[key])
            || exists|x: int| 0 <= x < runs.len() && #[trigger] run_recorded(lib, bin, runs[x], key, out[key]) by {
            if next.contains_key(key) && out[key] == next[key] {
                if m.contains_key(key) && next[key] == m[key] {
                } else {
                    assert(run_recorded(lib, bin, runs[0], key, out[key]));
                }
            } else {
                let x = choose|x: int| 0 <= x < rest.len() && #[trigger] run_recorded(lib, bin, rest[x], key, out[key]);
                assert(runs[x + 1] == rest[x]);
                assert(run_recorded(lib, bin, runs[x + 1], key, out[key]));
            }
        }
    }
}

/// Where run `x` of the ranges from `k` on comes from: the range and the
/// run's position among that range's runs.
pub open spec fn run_source(d: Seq<u8>, ranges: Seq<(u64, u64)>, k: int, x: int) -> (int, int)
    decreases ranges.len() - k,
{
    if k < 0 || k >= ranges.len() {
        (k, x)
    } else {
        let h = printable_runs(d, ranges[k].0 as int, ranges[k].1 as int).len();
        if x < h {
            (k, x)
        } else {
            run_source(d, ranges, k + 1, x - h)
        }
    }
}

proof fn lemma_run_source(d: Seq<u8>, ranges: Seq<(u64, u64)>, k: int, x: int)
    requires
        0 <= k,
        0 <= x < crate::strings::runs_of_ranges(d, ranges, k).len(),
    ensures
        k <= run_source(d, ranges, k, x).0 < ranges.len(),
        0 <= run_source(d, ranges, k, x).1 < printable_runs(
            d,
            ranges[run_source(d, ranges, k, x).0].0 as int,
            ranges[run_source(d, ranges, k, x).0].1 as int,
        ).len(),
        crate::strings::runs_of_ranges(d, ranges, k)[x] == printable_runs(
            d,
            ranges[run_source(d, ranges, k, x).0].0 as int,
            ranges[run_source(d, ranges, k, x).0].1 as int,
        )[run_source(d, ranges, k, x).1],
    decreases ranges.len() - k,
{
    if k < ranges.len() {
        let here = printable_runs(d, ranges[k].0 as int, ranges[k].1 as int);
        let rest = crate::strings::runs_of_ranges(d, ranges, k + 1);
        assert(crate::strings::runs_of_ranges(d, ranges, k) == here + rest);
        if x >= here.len() {
            lemma_run_source(d, ranges, k + 1, x - here.len());
        }
    }
}

/// Each string recorded by dumping a binary is the text of a maximal run of
/// at least four printable ASCII bytes within the file bytes of a section
/// that is neither code nor uninitialized data, and is recorded at the
/// address of that run's first byte (a later run with the same text
/// replaces an earlier one).
pub proof fn law_string_table_keys(lib: S2BinLib, bin: Seq<char>, key: Seq<char>)
    requires
        lib.spec_string_table(bin) is Ok,
        lib.spec_string_table(bin)->Ok_0.contains_key(key),
    ensures
        ({
            let d = lib.binaries_view()[bin];
            let ranges = string_ranges(lib.spec_sections(bin)->Ok_0, d.len(), 0);
            exists|j: int, y: int| #![trigger printable_runs(d, ranges[j].0 as int, ranges[j].1 as int)[y]]
                0 <= j < ranges.len()
                && 0 <= y < printable_runs(d, ranges[j].0 as int, ranges[j].1 as int).len()
                && is_string_run(d, ranges[j].0 as int, ranges[j].1 as int,
                    printable_runs(d, ranges[j].0 as int, ranges[j].1 as int)[y].0,
                    printable_runs(d, ranges[j].0 as int, ranges[j].1 as int)[y].1)
                && run_recorded(lib, bin, printable_runs(d, ranges[j].0 as int, ranges[j].1 as int)[y], key,
                    lib.spec_string_table(bin)->Ok_0[key])
        }),
{
    let d = lib.binaries_view()[bin];
    let t = lib.spec_sections(bin)->Ok_0;
    let ranges = string_ranges(t, d.len(), 0);
    let runs = crate::strings::runs_of_ranges(d, ranges, 0);
    let m = lib.spec_string_table(bin)->Ok_0;
    assert(m == lib.record_runs(bin, Map::empty(), runs));
    lemma_record_runs(lib, bin, Map::empty(), runs);
    assert(m.contains_key(key));
    let x = choose|x: int| 0 <= x < runs.len() && #[trigger] run_recorded(lib, bin, runs[x], key, m[key]);
    lemma_run_source(d, ranges, 0, x);
    let (j, y) = run_source(d, ranges, 0, x);
    law_dumped_string_runs(t, d);
    assert(is_string_run(d, ranges[j].0 as int, ranges[j].1 as int,
        printable_runs(d, ranges[j].0 as int, ranges[j].1 as int)[y].0,
        printable_runs(d, ranges[j].0 as int, ranges[j].1 as int)[y].1));
}

/// The instruction at byte `p` of a section's code (at address `rva`) is
/// valid, has address `r`, and one of its operands refers to `t`.
pub open spec fn refers_at(bitness: u32, code: Seq<u8>, rva: u64, image_base: u64, p: int, t: u64, r: u64) -> bool {
    &&& section_steps(bitness, code, rva, p)
    &&& !section_insn(bitness, code, rva, p).invalid
    &&& r == rva.wrapping_add(p as u64)
    &&& exists|k: int| 0 <= k < section_insn(bitness, code, rva, p).op_kinds@.len()
        && #[trigger] operand_ref(section_insn(bitness, code, rva, p), bitness, image_base, k) == Some(t)
}

/// Section `i` of table `tbl` is executable and its instruction at byte `p`
/// is a valid one at address `r` that refers to `t`.
pub open spec fn section_refers(d: Seq<u8>, tbl: Seq<SectionRecord>, bitness: u32, image_base: u64, i: int, p: int, t: u64, r: u64) -> bool {
    &&& 0 <= i < tbl.len()
    &&& spec_is_executable(tbl[i].flags)
    &&& match object_section_data(d, i as usize) {
        Some(sd) => refers_at(bitness, sd, tbl[i].address, image_base, p, t, r),
        None => false,
    }
}

proof fn lemma_insn_events_refer(ins: InsnModel, bitness: u32, image_base: u64, ip: u64, k: int)
    requires
        0 <= k,
    ensures
        forall|t: u64, r: u64| #[trigger] insn_events_from(ins, bitness, image_base, ip, k).contains((t, r)) ==> r == ip
            && exists|j: int| k <= j < ins.op_kinds@.len() && #[trigger] operand_ref(ins, bitness, image_base, j) == Some(t),
    decreases ins.op_kinds@.len() - k,
{
    if k < ins.op_kinds@.len() {
        lemma_insn_events_refer(ins, bitness, image_base, ip, k + 1);
        let rest = insn_events_from(ins, bitness, image_base, ip, k + 1);
        let all = insn_events_from(ins, bitness, image_base, ip, k);
        assert forall|t: u64, r: u64| #[trigger] all.contains((t, r)) implies r == ip
            && exists|j: int| k <= j < ins.op_kinds@.len() && #[trigger] operand_ref(ins, bitness, image_base, j) == Some(t) by {
            let q = choose|q: int| 0 <= q < all.len() && all[q] == (t, r);
            match operand_ref(ins, bitness, image_base, k) {
                Some(t0) => {
                    assert(all == seq![(t0, ip)] + rest);
                    if q == 0 {
                        assert(operand_ref(ins, bitness, image_base, k) == Some(t));
                    } else {
                        assert(rest[q - 1] == (t, r));
                        assert(rest.contains((t, r)));
                    }
                },
                None => {
                    assert(all == rest);
                    assert(rest.contains((t, r)));
                },
            }
        }
    }
}

proof fn lemma_section_events_refer(bitness: u32, code: Seq<u8>, rva: u64, image_base: u64, pos: int)
    requires
        0 <= pos,
    ensures
        forall|t: u64, r: u64| #[trigger] section_events(bitness, code, rva, image_base, pos).contains((t, r))
            ==> exists|p: int| pos <= p && #[trigger] refers_at(bitness, code, rva, image_base, p, t, r),
    decreases code.len() - pos,
{
    if section_steps(bitness, code, rva, pos) {
        let ins = section_insn(bitness, code, rva, pos);
        let ip = rva.wrapping_add(pos as u64);
        lemma_section_events_refer(bitness, code, rva, image_base, pos + ins.len);
        lemma_insn_events_refer(ins, bitness, image_base, ip, 0);
        let here = if ins.invalid { Seq::empty() } else { insn_events_from(ins, bitness, image_base, ip, 0) };
        let rest = section_events(bitness, code, rva, image_base, pos + ins.len);
        let all = section_events(bitness, code, rva, image_base, pos);
        assert(all == here + rest);
        assert forall|t: u64, r: u64| #[trigger] all.contains((t, r))
            implies exists|p: int| pos <= p && #[trigger] refers_at(bitness, code, rva, image_base, p, t, r) by {
            let q = choose|q: int| 0 <= q < all.len() && all[q] == (t, r);
            if q < here.len() {
                assert(here[q] == (t, r));
                assert(here.contains((t, r)));
                assert(!ins.invalid);
                let j = choose|j: int| 0 <= j < ins.op_kinds@.len() && #[trigger] operand_ref(ins, bitness, image_base, j) == Some(t);
                assert(refers_at(bitness, code, rva, image_base, pos, t, r));
            } else {
                assert(rest[q - here.len()] == (t, r));
                assert(rest.contains((t, r)));
                let p = choose|p: int| pos + ins.len <= p && #[trigger] refers_at(bitness, code, rva, image_base, p, t, r);
                assert(refers_at(bitness, code, rva, image_base, p, t, r));
            }
        }
    }
}

proof fn lemma_binary_events_refer(d: Seq<u8>, tbl: Seq<SectionRecord>, bitness: u32, image_base: u64, i: int)
    requires
        0 <= i,
    ensures
        forall|t: u64, r: u64| #[trigger] binary_events(d, tbl, bitness, image_base, i).contains((t, r))
            ==> exists|j: int, p: int| #[trigger] section_refers(d, tbl, bitness, image_base, j, p, t, r),
    decreases tbl.len() - i,
{
    if i < tbl.len() {
        lemma_binary_events_refer(d, tbl, bitness, image_base, i + 1);
        let here = section_events_at(d, tbl, bitness, image_base, i);
        let rest = binary_events(d, tbl, bitness, image_base, i + 1);
        let all = binary_events(d, tbl, bitness, image_base, i);
        assert(all == here + rest);
        assert forall|t: u64, r: u64| #[trigger] all.contains((t, r))
            implies exists|j: int, p: int| #[trigger] section_refers(d, tbl, bitness, image_base, j, p, t, r) by {
            let q = choose|q: int| 0 <= q < all.len() && all[q] == (t, r);
            if q < here.len() {
                assert(here[q] == (t, r));
                assert(here.contains((t, r)));
                assert(spec_is_executable(tbl[i].flags));
                let sd = object_section_data(d, i as usize)->Some_0;
                lemma_section_events_refer(bitness, sd, tbl[i].address, image_base, 0);
                let p = choose|p: int| 0 <= p && #[trigger] refers_at(bitness, sd, tbl[i].address, image_base, p, t, r);
                assert(section_refers(d, tbl, bitness, image_base, i, p, t, r));
            } else {
                assert(rest[q - here.len()] == (t, r));
                assert(rest.contains((t, r)));
            }
        }
    }
}

proof fn lemma_apply_events_entries(m: Map<u64, Seq<u64>>, ev: Seq<(u64, u64)>)
    requires
        forall|t: u64| #[trigger] m.contains_key(t) ==> m[t].len() > 0,
    ensures
        forall|t: u64| #[trigger] apply_events(m, ev).contains_key(t) ==> apply_events(m, ev)[t].len() > 0,
        forall|t: u64, r: u64| apply_events(m, ev).contains_key(t) && #[trigger] apply_events(m, ev)[t].contains(r)
            ==> (m.contains_key(t) && m[t].contains(r)) || ev.contains((t, r)),
    decreases ev.len(),
{
    if ev.len() > 0 {
        let m2 = add_ref(m, ev[0].0, ev[0].1);
        let rest = ev.drop_first();
        assert forall|t: u64| #[trigger] m2.contains_key(t) implies m2[t].len() > 0 by {}
        lemma_apply_events_entries(m2, rest);
        let out = apply_events(m, ev);
        assert(out == apply_events(m2, rest));
        assert forall|t: u64, r: u64| out.contains_key(t) && #[trigger] out[t].contains(r)
            implies (m.contains_key(t) && m[t].contains(r)) || ev.contains((t, r)) by {
            if m2.contains_key(t) && m2[t].contains(r) {
                let q = choose|q: int| 0 <= q < m2[t].len() && m2[t][q] == r;
                if t == ev[0].0 {
                    let old_list = if m.contains_key(t) { m[t] } else { Seq::empty() };
                    assert(m2[t] == old_list.push(ev[0].1));
                    if q < old_list.len() {
                        assert(old_list[q] == r);
                    } else {
                        assert(ev[0] == (t, r));
                    }
                } else {
                    assert(m2[t] == m[t]);
                }
            } else {
                assert(rest.contains((t, r)));
                let q = choose|q: int| 0 <= q < rest.len() && rest[q] == (t, r);
                assert(ev[q + 1] == (t, r));
            }
        }
    }
}

/// After the cross-references of a binary are dumped, each entry of its
/// table is a non-empty list, and every address in the list of a target is
/// that of a valid instruction, in an executable section, with an operand
/// that refers to the target.
pub proof fn law_xref_entries(before: S2BinLib, after: S2BinLib, name: Seq<char>, ev: Seq<(u64, u64)>, cs: Seq<u64>)
    requires
        before.spec_xref_scan(name) == Ok::<(Seq<(u64, u64)>, Seq<u64>), S2Error>((ev, cs)),
        after.xrefs_view().contains_key(name),
        after.xrefs_view()[name] == apply_events(Map::empty(), ev),
    ensures
        forall|t: u64| #[trigger] after.xrefs_view()[name].contains_key(t) ==> after.xrefs_view()[name][t].len() > 0,
        forall|t: u64, r: u64| after.xrefs_view()[name].contains_key(t) && #[trigger] after.xrefs_view()[name][t].contains(r)
            ==> exists|j: int, p: int| #[trigger] section_refers(
                before.binaries_view()[name],
                before.spec_sections(name)->Ok_0,
                spec_bitness(object_file_kind(before.binaries_view()[name])->Some_0)->Some_0,
                before.spec_image_base_of(name)->Ok_0,
                j, p, t, r,
            ),
{
    let ib = before.spec_image_base_of(name)->Ok_0;
    let d = before.binaries_view()[name];
    let bitness = match object_file_kind(d) {
        Some(k) => match spec_bitness(k) {
            Some(b) => b,
            None => 0,
        },
        None => 0,
    };
    let tbl = before.spec_sections(name)->Ok_0;
    assert(ev == binary_events(d, tbl, bitness, ib, 0));
    lemma_apply_events_entries(Map::empty(), ev);
    lemma_binary_events_refer(d, tbl, bitness, ib, 0);
    let x = after.xrefs_view()[name];
    assert forall|t: u64, r: u64| x.contains_key(t) && #[trigger] x[t].contains(r)
        implies exists|j: int, p: int| #[trigger] section_refers(d, tbl,
            spec_bitness(object_file_kind(d)->Some_0)->Some_0, ib, j, p, t, r) by {
        assert(ev.contains((t, r)));
        let (j, p) = choose|j: int, p: int| #[trigger] section_refers(d, tbl, bitness, ib, j, p, t, r);
        assert(bitness == spec_bitness(object_file_kind(d)->Some_0)->Some_0);
        assert(section_refers(d, tbl, spec_bitness(object_file_kind(d)->Some_0)->Some_0, ib, j, p, t, r));
    }
}


/// An MSVC vtable lists as its bases the entries of its class hierarchy
/// descriptor's base class array after the first, which is the class
/// itself: one fewer than the array holds, each the entry one further on.
pub proof fn law_msvc_bases_skip_self(v: ImageView, va: u64, loc: CompleteObjectLocator, x: VTableInfo)
    requires
        spec_msvc_vtable(v, va, loc) == Some(vtable_view(x)),
    ensures
        spec_class_hierarchy(v, loc.class_descriptor) is Some,
        spec_class_hierarchy(v, loc.class_descriptor) matches Some((_, all)) && {
            &&& all.len() > 0 ==> x.bases@.len() + 1 == all.len()
            &&& all.len() == 0 ==> x.bases@.len() == 0
            &&& forall|j: int| 0 <= j < x.bases@.len() ==> #[trigger] base_view(x.bases@[j]) == all[j + 1]
        },
{
    reveal(spec_msvc_vtable);
    let all = spec_class_hierarchy(v, loc.class_descriptor).unwrap().1;
    assert(bases_view(x.bases@) == (if all.len() > 0 { all.drop_first() } else { all }));
    assert forall|j: int| 0 <= j < x.bases@.len() implies #[trigger] base_view(x.bases@[j]) == all[j + 1] by {
        assert(bases_view(x.bases@)[j] == base_view(x.bases@[j]));
    }
}

/// On Windows the RTTI name searched for class `name` is MSVC's type
/// descriptor name of a class, `.?AV<name>@@`; elsewhere it is the
/// Itanium name, the byte length in decimal followed by the name.
pub proof fn law_windows_rtti_name(os: Seq<char>, name: Seq<char>)
    ensures
        is_windows(os) ==> spec_decorate_name(os, name) == seq!['.', '?', 'A', 'V'] + name + seq!['@', '@'],
        !is_windows(os) ==> spec_decorate_name(os, name) == decimal(byte_len(name)) + name,
{
    reveal_strlit(".?AV");
    reveal_strlit("@@");
    assert(".?AV"@ =~= seq!['.', '?', 'A', 'V']);
    assert("@@"@ =~= seq!['@', '@']);
}

/// On Windows the RTTI name of class `class2` nested in `class1` is
/// `.?AV<class2>@<class1>@@`.
pub proof fn law_windows_nested_rtti_name(os: Seq<char>, class1: Seq<char>, class2: Seq<char>)
    requires
        is_windows(os),
    ensures
        spec_decorate_nested_2(os, class1, class2)
            == seq!['.', '?', 'A', 'V'] + class2 + seq!['@'] + class1 + seq!['@', '@'],
{
    reveal_strlit(".?AV");
    reveal_strlit("@@");
    reveal_strlit("@");
    assert(".?AV"@ =~= seq!['.', '?', 'A', 'V']);
    assert("@@"@ =~= seq!['@', '@']);
    assert("@"@ =~= seq!['@']);
}

/// A binary's addresses map to process addresses by moving its image base
/// to the module base: the image base itself lands on the module base, the
/// module base maps back to the image base, and an address `d` bytes past
/// the image base lands `d` bytes past the module base.
pub proof fn law_image_base_to_module_base(lib: S2BinLib, name: Seq<char>, base: u64, ib: u64, d: u64)
    requires
        lib.spec_module_base(name) == Ok::<u64, S2Error>(base),
        lib.spec_image_base_of(name) == Ok::<u64, S2Error>(ib),
        ib + d <= u64::MAX,
        base + d <= u64::MAX,
    ensures
        lib.spec_rva_to_mem(name, ib) == Ok::<u64, S2Error>(base),
        lib.spec_mem_to_rva(name, base) == Ok::<u64, S2Error>(ib),
        lib.spec_rva_to_mem(name, (ib + d) as u64) == Ok::<u64, S2Error>((base + d) as u64),
        lib.spec_mem_to_rva(name, (base + d) as u64) == Ok::<u64, S2Error>((ib + d) as u64),
{
    assert(ib.wrapping_sub(ib).wrapping_add(base) == base) by (bit_vector);
    assert(base.wrapping_sub(base).wrapping_add(ib) == ib) by (bit_vector);
    let a = (ib + d) as u64;
    let m = (base + d) as u64;
    assert(a.wrapping_sub(ib).wrapping_add(base) == m) by (bit_vector)
        requires a == ib + d, m == base + d, ib + d <= u64::MAX, base + d <= u64::MAX;
    assert(m.wrapping_sub(base).wrapping_add(ib) == a) by (bit_vector)
        requires a == ib + d, m == base + d, ib + d <= u64::MAX, base + d <= u64::MAX;
}

/// The image base of a loaded PE file is its preferred base, that of an
/// ELF file 0.
pub proof fn law_image_base_from_file(lib: S2BinLib, name: Seq<char>)
    requires
        lib.binaries_view().contains_key(name),
    ensures
        object_file_kind(lib.binaries_view()[name]) matches Some(FileKindModel::Pe64 { image_base })
            ==> lib.spec_image_base_of(name) == Ok::<u64, S2Error>(image_base),
        object_file_kind(lib.binaries_view()[name]) matches Some(FileKindModel::Pe32 { image_base })
            ==> lib.spec_image_base_of(name) == Ok::<u64, S2Error>(image_base),
        object_file_kind(lib.binaries_view()[name]) == Some(FileKindModel::Elf64)
            ==> lib.spec_image_base_of(name) == Ok::<u64, S2Error>(0),
{
}

/// Without a start found through padding, the function start is the nearer
/// of the two candidates below the address, the greater of the nearest call
/// target and the nearest vtable slot; no start when both are 0.
pub proof fn law_nearer_candidate_wins(xref: u64, vfunc: u64)
    ensures
        xref == 0 && vfunc == 0 ==> combine_func_start(xref, vfunc, None) == Err::<u64, S2Error>(S2Error::FunctionNotFound),
        xref != 0 || vfunc != 0 ==> (combine_func_start(xref, vfunc, None) matches Ok(r)
            && r >= xref && r >= vfunc && (r == xref || r == vfunc)),
{
}

/// A vtable counts as deriving from `target` through any one of its bases,
/// whatever its position: one base whose name contains `target` suffices,
/// and without such a base it does not.
pub proof fn law_any_base_counts(vt: VTableInfo, target: Seq<char>, k: int)
    requires
        0 <= k < vt.bases@.len(),
    ensures
        contains_chars(vt.bases@[k].class_name@, target) ==> has_base_containing(vt, target),
        !has_base_containing(vt, target) ==> forall|j: int| 0 <= j < vt.bases@.len()
            ==> !contains_chars(#[trigger] vt.bases@[j].class_name@, target),
{
}

/// A vtable not yet visited, not named `target`, with any base whose name
/// contains `target`, is reported as a child of `target`: the children
/// found from it on begin with it.
pub proof fn law_child_through_any_base(vts: Seq<VTableInfo>, target: Seq<char>, visited: Set<Seq<char>>, i: int, k: int)
    requires
        0 <= i < vts.len(),
        0 <= k < vts[i].bases@.len(),
        contains_chars(vts[i].bases@[k].class_name@, target),
        vts[i].class_name@ != target,
        !visited.contains(vts[i].class_name@),
    ensures
        children_loop(vts, target, visited, i).0.len() > 0,
        children_loop(vts, target, visited, i).0[0] == i,
{
    assert(has_base_containing(vts[i], target));
    assert(is_new_child(vts, target, visited, i));
}

} // verus!
