//! The cross-reference table of a loaded binary's code: which instructions
//! refer to which addresses, and which addresses are called.
use vstd::prelude::*;

use crate::decode::{
    add_ref, apply_events, code_has_path_index_compare, decode_insn, has_path_index_compare, instruction_xref_target,
    spec_insn_xref, x86_decode, insn_events_from, insn_refs_from, lemma_apply_concat, operand_ref_of,
    section_calls, section_events, section_insn, InsnModel,
};
use crate::error::S2Error;
use crate::objfile::{object_file_kind, object_section_data, read_file_kind, read_section_data, FileKindModel, SectionRecord};
use crate::s2binlib::S2BinLib;
use crate::sections::{is_executable, spec_is_executable};
use crate::sorted::{is_sorted, sort_u64};
use crate::store::U64Store;

verus! {

/// The decoding mode of a file kind: 64 for PE32+ and ELF64, 32 for PE32
/// and ELF32.
pub open spec fn spec_bitness(kind: FileKindModel) -> Option<u32> {
    match kind {
        FileKindModel::Pe64 { .. } => Some(64),
        FileKindModel::Elf64 => Some(64),
        FileKindModel::Pe32 { .. } => Some(32),
        FileKindModel::Elf32 => Some(32),
        FileKindModel::Other { .. } => None,
    }
}

/// A cross-reference table as lists of plain addresses.
pub open spec fn xview(s: U64Store<Vec<u64>>) -> Map<u64, Seq<u64>> {
    s.view().map_values(|v: Vec<u64>| v@)
}

/// The (target, instruction) pairs of section `i` of table `t`: those of its
/// data when it is executable and its data can be read.
pub open spec fn section_events_at(d: Seq<u8>, t: Seq<SectionRecord>, bitness: u32, image_base: u64, i: int) -> Seq<(u64, u64)> {
    if spec_is_executable(t[i].flags) {
        match object_section_data(d, i as usize) {
            Some(sd) => section_events(bitness, sd, t[i].address, image_base, 0),
            None => Seq::empty(),
        }
    } else {
        Seq::empty()
    }
}

/// The call targets of section `i` of table `t`, likewise.
pub open spec fn section_calls_at(d: Seq<u8>, t: Seq<SectionRecord>, bitness: u32, image_base: u64, i: int) -> Seq<u64> {
    if spec_is_executable(t[i].flags) {
        match object_section_data(d, i as usize) {
            Some(sd) => section_calls(bitness, sd, t[i].address, image_base, 0),
            None => Seq::empty(),
        }
    } else {
        Seq::empty()
    }
}

/// The pairs of the sections from `i` on, in table order.
pub open spec fn binary_events(d: Seq<u8>, t: Seq<SectionRecord>, bitness: u32, image_base: u64, i: int) -> Seq<(u64, u64)>
    decreases t.len() - i,
{
    if i < 0 || i >= t.len() {
        Seq::empty()
    } else {
        section_events_at(d, t, bitness, image_base, i) + binary_events(d, t, bitness, image_base, i + 1)
    }
}

/// The call targets of the sections from `i` on, in table order.
pub open spec fn binary_calls(d: Seq<u8>, t: Seq<SectionRecord>, bitness: u32, image_base: u64, i: int) -> Seq<u64>
    decreases t.len() - i,
{
    if i < 0 || i >= t.len() {
        Seq::empty()
    } else {
        section_calls_at(d, t, bitness, image_base, i) + binary_calls(d, t, bitness, image_base, i + 1)
    }
}

/// Appending `item` under `key` is `add_ref` on the plain view.
proof fn lemma_push_is_add_ref(before: U64Store<Vec<u64>>, after: U64Store<Vec<u64>>, key: u64, item: u64)
    requires
        after.view().dom() == before.view().dom().insert(key),
        after.view()[key]@ == (if before.view().contains_key(key) {
            before.view()[key]@
        } else {
            Seq::<u64>::empty()
        }).push(item),
        forall|k: u64| k != key && #[trigger] before.view().contains_key(k) ==> after.view()[k] == before.view()[k],
    ensures
        xview(after) == add_ref(xview(before), key, item),
{
    assert(xview(after) =~= add_ref(xview(before), key, item));
}

/// Records the references of one valid instruction at address `ip`.
fn record_insn(
    ins: &InsnModel,
    bitness: u32,
    image_base: u64,
    ip: u64,
    xrefs: &mut U64Store<Vec<u64>>,
    calls: &mut Vec<u64>,
)
    requires
        old(xrefs).wf(),
        ins.op_kinds@.len() == ins.immediates@.len(),
    ensures
        final(xrefs).wf(),
        xview(*final(xrefs)) == apply_events(xview(*old(xrefs)), insn_events_from(*ins, bitness, image_base, ip, 0)),
        final(calls)@ == old(calls)@ + (if ins.call_far || ins.call_near {
            insn_refs_from(*ins, bitness, image_base, 0)
        } else {
            Seq::<u64>::empty()
        }),
{
    let is_call = ins.call_far || ins.call_near;
    let mut k: usize = 0;
    while k < ins.op_kinds.len()
        invariant
            xrefs.wf(),
            k <= ins.op_kinds@.len(),
            ins.op_kinds@.len() == ins.immediates@.len(),
            is_call == (ins.call_far || ins.call_near),
            apply_events(xview(*old(xrefs)), insn_events_from(*ins, bitness, image_base, ip, 0))
                == apply_events(xview(*xrefs), insn_events_from(*ins, bitness, image_base, ip, k as int)),
            old(calls)@ + (if is_call { insn_refs_from(*ins, bitness, image_base, 0) } else { Seq::<u64>::empty() })
                == calls@ + (if is_call { insn_refs_from(*ins, bitness, image_base, k as int) } else { Seq::<u64>::empty() }),
        decreases ins.op_kinds@.len() - k,
    {
        let ghost rest_ev = insn_events_from(*ins, bitness, image_base, ip, k + 1);
        let ghost rest_refs = insn_refs_from(*ins, bitness, image_base, k + 1);
        match operand_ref_of(ins, bitness, image_base, k) {
            Some(t) => {
                let ghost before = *xrefs;
                let ghost calls_before = calls@;
                xrefs.push_to(t, ip);
                proof {
                    lemma_push_is_add_ref(before, *xrefs, t, ip);
                    assert((seq![(t, ip)] + rest_ev).drop_first() =~= rest_ev);
                    assert((seq![(t, ip)] + rest_ev)[0] == (t, ip));
                }
                if is_call {
                    calls.push(t);
                    proof {
                        assert(calls_before + (seq![t] + rest_refs) =~= calls@ + rest_refs);
                    }
                }
            },
            None => {},
        }
        k = k + 1;
    }
}

/// Records the references of the instructions decoded from a section's
/// code, which starts at address `rva`.
fn section_xrefs(
    bitness: u32,
    code: &[u8],
    rva: u64,
    image_base: u64,
    xrefs: &mut U64Store<Vec<u64>>,
    calls: &mut Vec<u64>,
)
    requires
        old(xrefs).wf(),
        bitness == 32 || bitness == 64,
    ensures
        final(xrefs).wf(),
        xview(*final(xrefs)) == apply_events(xview(*old(xrefs)), section_events(bitness, code@, rva, image_base, 0)),
        final(calls)@ == old(calls)@ + section_calls(bitness, code@, rva, image_base, 0),
{
    let mut pos: usize = 0;
    while pos < code.len()
        invariant
            xrefs.wf(),
            bitness == 32 || bitness == 64,
            pos <= code@.len(),
            apply_events(xview(*old(xrefs)), section_events(bitness, code@, rva, image_base, 0))
                == apply_events(xview(*xrefs), section_events(bitness, code@, rva, image_base, pos as int)),
            old(calls)@ + section_calls(bitness, code@, rva, image_base, 0)
                == calls@ + section_calls(bitness, code@, rva, image_base, pos as int),
        decreases code@.len() - pos,
    {
        let rest = vstd::slice::slice_subrange(code, pos, code.len());
        assert(rest@ == code@.skip(pos as int));
        let ip = rva.wrapping_add(pos as u64);
        let ins = decode_insn(bitness, rest, ip);
        let ghost before = xview(*xrefs);
        let ghost calls_before = calls@;
        let ghost next = pos + ins.len;
        proof {
            assert(ins == section_insn(bitness, code@, rva, pos as int));
        }
        if !ins.invalid {
            record_insn(&ins, bitness, image_base, ip, xrefs, calls);
        }
        proof {
            let here = if ins.invalid {
                Seq::<(u64, u64)>::empty()
            } else {
                insn_events_from(ins, bitness, image_base, ip, 0)
            };
            let here_calls = if ins.invalid || !(ins.call_far || ins.call_near) {
                Seq::<u64>::empty()
            } else {
                insn_refs_from(ins, bitness, image_base, 0)
            };
            lemma_apply_concat(before, here, section_events(bitness, code@, rva, image_base, next));
            assert(calls_before + (here_calls + section_calls(bitness, code@, rva, image_base, next))
                =~= calls@ + section_calls(bitness, code@, rva, image_base, next));
        }
        pos = pos + ins.len;
    }
}

impl S2BinLib {
    /// What dumping the cross-references of binary `bin` collects: the
    /// (target, instruction) pairs and the call targets of its executable
    /// sections, in section and instruction order; or why it fails.
    pub open spec fn spec_xref_scan(&self, bin: Seq<char>) -> Result<(Seq<(u64, u64)>, Seq<u64>), S2Error> {
        match self.spec_image_base_of(bin) {
            Err(e) => Err(e),
            Ok(ib) => {
                let d = self.binaries_view()[bin];
                let bitness = match object_file_kind(d) {
                    Some(k) => match spec_bitness(k) {
                        Some(b) => b,
                        None => 0,
                    },
                    None => 0,
                };
                match self.spec_sections(bin) {
                    Err(e) => Err(e),
                    Ok(t) => Ok((binary_events(d, t, bitness, ib, 0), binary_calls(d, t, bitness, ib, 0))),
                }
            },
        }
    }

    /// Decodes the executable sections of binary `binary_name` and caches,
    /// for each address its instructions refer to, the addresses of those
    /// instructions in order, and the sorted list of call targets.
    pub fn dump_xrefs(&mut self, binary_name: &str) -> (r: Result<(), S2Error>)
        requires
            old(self).wf(),
        ensures
            final(self).wf(),
            final(self).same_setup(*old(self)),
            final(self).strings_view() == old(self).strings_view(),
            final(self).vtables_view() == old(self).vtables_view(),
            match old(self).spec_xref_scan(binary_name@) {
                Err(e) => r == Err::<(), S2Error>(e) && final(self).xrefs_view() == old(self).xrefs_view()
                    && final(self).calls_targets_view() == old(self).calls_targets_view(),
                Ok((ev, cs)) => r is Ok
                    && final(self).xrefs_view() == old(self).xrefs_view().insert(binary_name@, apply_events(Map::empty(), ev))
                    && final(self).calls_targets_view().dom() == old(self).calls_targets_view().dom().insert(binary_name@)
                    && is_sorted(final(self).calls_targets_view()[binary_name@])
                    && final(self).calls_targets_view()[binary_name@].to_multiset() == cs.to_multiset()
                    && forall|k: Seq<char>| k != binary_name@ && #[trigger] old(self).calls_targets_view().contains_key(k)
                        ==> final(self).calls_targets_view()[k] == old(self).calls_targets_view()[k],
            },
    {
        proof {
            self.lemma_same_setup_refl();
        }
        let image_base = self.get_image_base(binary_name)?;
        let data = self.get_binary(binary_name)?;
        let bitness: u32 = match read_file_kind(data)? {
            FileKindModel::Pe64 { .. } => 64,
            FileKindModel::Elf64 => 64,
            FileKindModel::Pe32 { .. } => 32,
            FileKindModel::Elf32 => 32,
            FileKindModel::Other { .. } => {
                return Err(S2Error::UnsupportedFormat);
            },
        };
        let secs = self.sections_of(binary_name)?;
        let ghost d = data@;
        let ghost t = secs@;
        let mut xrefs: U64Store<Vec<u64>> = U64Store::new();
        let mut calls: Vec<u64> = Vec::new();
        proof {
            assert(xview(xrefs) =~= Map::empty());
            assert(calls@ + binary_calls(d, t, bitness, image_base, 0) =~= binary_calls(d, t, bitness, image_base, 0));
        }
        let mut i: usize = 0;
        while i < secs.len()
            invariant
                xrefs.wf(),
                bitness == 32 || bitness == 64,
                d == data@,
                t == secs@,
                i <= t.len(),
                apply_events(Map::empty(), binary_events(d, t, bitness, image_base, 0))
                    == apply_events(xview(xrefs), binary_events(d, t, bitness, image_base, i as int)),
                binary_calls(d, t, bitness, image_base, 0) == calls@ + binary_calls(d, t, bitness, image_base, i as int),
            decreases t.len() - i,
        {
            let ghost before = xview(xrefs);
            let ghost calls_before = calls@;
            if is_executable(secs[i].flags) {
                match read_section_data(data, i) {
                    Some(sd) => {
                        section_xrefs(bitness, sd.as_slice(), secs[i].address, image_base, &mut xrefs, &mut calls);
                    },
                    None => {},
                }
            }
            proof {
                lemma_apply_concat(before, section_events_at(d, t, bitness, image_base, i as int),
                    binary_events(d, t, bitness, image_base, i + 1));
                assert(calls_before + (section_calls_at(d, t, bitness, image_base, i as int)
                    + binary_calls(d, t, bitness, image_base, i + 1))
                    =~= calls@ + binary_calls(d, t, bitness, image_base, i + 1));
            }
            i = i + 1;
        }
        proof {
            assert(calls@ + Seq::<u64>::empty() =~= calls@);
        }
        let ghost unsorted = calls@;
        sort_u64(&mut calls);
        self.set_xrefs(binary_name, xrefs, calls);
        Ok(())
    }
}


/// The call target just before `x` in the sorted list `v`, as the binary
/// search finds it: `x` itself when `x` occurs at least twice in `v` (the
/// search lands on its last occurrence, and the one before is `x` again);
/// otherwise the greatest element below `x`, or 0 when no element is below
/// `x`.
pub open spec fn is_prev_target(v: Seq<u64>, x: u64, r: u64) -> bool {
    &&& (exists|i: int, j: int| 0 <= i < j < v.len() && v[i] == x && v[j] == x) ==> r == x
    &&& {
        ||| (r == 0 && forall|j: int| 0 <= j < v.len() ==> v[j] >= x)
        ||| {
            &&& v.contains(r)
            &&& r <= x
            &&& forall|j: int| 0 <= j < v.len() && v[j] < x ==> v[j] <= r
            &&& r == x ==> exists|i: int, j: int| 0 <= i < j < v.len() && v[i] == x && v[j] == x
        }
    }
}

impl S2BinLib {
    /// The addresses of the instructions that refer to `target_rva`, in the
    /// table cached for binary `binary_name`.
    pub fn find_xrefs_cached(&self, binary_name: &str, target_rva: u64) -> (r: Option<&Vec<u64>>)
        requires
            self.wf(),
        ensures
            match r {
                Some(v) => self.xrefs_view().contains_key(binary_name@)
                    && self.xrefs_view()[binary_name@].contains_key(target_rva)
                    && v@ == self.xrefs_view()[binary_name@][target_rva],
                None => !(self.xrefs_view().contains_key(binary_name@)
                    && self.xrefs_view()[binary_name@].contains_key(target_rva)),
            },
    {
        proof {
            self.lemma_wf();
        }
        match self.xrefs_cache.get(binary_name) {
            Some(table) => table.get(target_rva),
            None => None,
        }
    }

    /// Sets the call targets of binary `binary_name`, sorted.
    pub fn insert_calls_targets(&mut self, binary_name: &str, targets: Vec<u64>)
        requires
            old(self).wf(),
        ensures
            final(self).wf(),
            final(self).same_setup(*old(self)),
            final(self).xrefs_view() == old(self).xrefs_view(),
            final(self).strings_view() == old(self).strings_view(),
            final(self).vtables_view() == old(self).vtables_view(),
            final(self).calls_targets_view().dom() == old(self).calls_targets_view().dom().insert(binary_name@),
            is_sorted(final(self).calls_targets_view()[binary_name@]),
            final(self).calls_targets_view()[binary_name@].to_multiset() == targets@.to_multiset(),
            forall|k: Seq<char>| k != binary_name@ && #[trigger] old(self).calls_targets_view().contains_key(k)
                ==> final(self).calls_targets_view()[k] == old(self).calls_targets_view()[k],
    {
        let mut calls = targets;
        sort_u64(&mut calls);
        self.set_calls_targets(binary_name, calls);
    }

    /// What `find_xref_func_start_rva` may return: 0 without call targets
    /// for the binary, else a call target just before `include_rva`.
    pub open spec fn spec_xref_func_start(&self, bin: Seq<char>, include_rva: u64, r: u64) -> bool {
        if self.calls_targets_view().contains_key(bin) {
            is_prev_target(self.calls_targets_view()[bin], include_rva, r)
        } else {
            r == 0
        }
    }

    /// The nearest call target before `include_rva` in the call targets
    /// cached for binary `binary_name`: the start of the function holding
    /// it, when that function is called directly; 0 when none is known.
    pub fn find_xref_func_start_rva(&self, binary_name: &str, include_rva: u64) -> (r: Result<u64, S2Error>)
        requires
            self.wf(),
        ensures
            r matches Ok(v) && self.spec_xref_func_start(binary_name@, include_rva, v),
    {
        proof {
            self.lemma_wf();
        }
        let mut nearest: u64 = 0;
        if let Some(cache) = self.calls_targets_cache.get(binary_name) {
            proof {
                assert(self.calls_targets_view().contains_key(binary_name@));
                assert(self.calls_targets_view()[binary_name@] == cache@);
            }
            let found = crate::sorted::binary_search_u64(cache.as_slice(), include_rva);
            let idx = match found {
                Ok(i) => i,
                Err(i) => i,
            };
            proof {
                let v = cache@;
                if exists|i: int, j: int| 0 <= i < j < v.len() && v[i] == include_rva && v[j] == include_rva {
                    let (a, b) = choose|i: int, j: int| 0 <= i < j < v.len() && v[i] == include_rva && v[j] == include_rva;
                    assert(found is Ok);
                    assert(a < idx);
                    assert(v[a] <= v[idx - 1]);
                }
            }
            if idx > 0 {
                nearest = cache[idx - 1];
                proof {
                    assert(cache@[idx - 1] == nearest);
                    if nearest == include_rva {
                        assert(cache@[idx as int] == include_rva);
                    }
                }
            }
        }
        Ok(nearest)
    }

    /// `find_xref_func_start_rva`, as a process address.
    pub fn find_xref_func_start(&self, binary_name: &str, include_rva: u64) -> (r: Result<u64, S2Error>)
        requires
            self.wf(),
        ensures
            exists|v: u64| self.spec_xref_func_start(binary_name@, include_rva, v) && r == self.spec_rva_to_mem(binary_name@, v),
    {
        let v = self.find_xref_func_start_rva(binary_name, include_rva)?;
        self.rva_to_mem_address(binary_name, v)
    }
}


/// The first bytes of a function that returns at once: `ret imm16`, `ret`,
/// or `mov al, 1; ret`.
pub open spec fn spec_is_nullsub_bytes(b: Seq<u8>) -> bool {
    b[0] == 0xC2 || b[0] == 0xC3 || (b[0] == 0xB0 && b[1] == 0x01 && b[2] == 0xC3)
}

impl S2BinLib {
    /// What `follow_xref_rva_to_rva` returns: the address referred to by the
    /// 64-bit instruction at `rva`, decoded from the 15 file bytes there.
    pub open spec fn spec_follow_xref(&self, bin: Seq<char>, rva: u64) -> Result<u64, S2Error> {
        match self.spec_rva_to_offset(bin, rva) {
            Err(e) => Err(e),
            Ok(off) => {
                let d = self.binaries_view()[bin];
                if off + 15 > d.len() {
                    Err(S2Error::InstructionOutOfRange)
                } else {
                    spec_insn_xref(x86_decode(64, d.subrange(off as int, off + 15), rva))
                }
            },
        }
    }

    /// The address that the instruction at address `rva` of binary
    /// `binary_name` refers to.
    pub fn follow_xref_rva_to_rva(&self, binary_name: &str, rva: u64) -> (r: Result<u64, S2Error>)
        requires
            self.wf(),
        ensures
            r == self.spec_follow_xref(binary_name@, rva),
    {
        let off = self.rva_to_file_offset(binary_name, rva)?;
        let data = self.get_binary(binary_name)?;
        if off > data.len() as u64 || data.len() as u64 - off < 15 {
            return Err(S2Error::InstructionOutOfRange);
        }
        let code = vstd::slice::slice_subrange(data, off as usize, off as usize + 15);
        let ins = decode_insn(64, code, rva);
        instruction_xref_target(&ins)
    }

    /// The search for the state-changed notification among slots `i` to
    /// `count` of the vtable at `vt` of the server binary: the first slot
    /// whose function's first 32 bytes hold the path index compare.
    pub open spec fn spec_netvar_from(&self, vt: u64, count: usize, i: usize) -> Result<u64, S2Error>
        decreases count - i,
    {
        if i >= count {
            Err(S2Error::NetworkVarNotFound)
        } else {
            match self.spec_slot("server"@, vt, i) {
                Err(e) => Err(e),
                Ok(f) => match self.spec_read_rva("server"@, f, 32) {
                    Err(e) => Err(e),
                    Ok(b) => if has_path_index_compare(b, 0) {
                        Ok(i as u64)
                    } else {
                        self.spec_netvar_from(vt, count, (i + 1) as usize)
                    },
                },
            }
        }
    }

    /// What `find_networkvar_vtable_statechanged_rva` returns.
    pub open spec fn spec_find_netvar(&self, vt: u64) -> Result<u64, S2Error> {
        match self.spec_vfunc_end("server"@, vt, 0) {
            Err(e) => Err(e),
            Ok(end) => self.spec_netvar_from(vt, (end / 8) as usize, 0),
        }
    }

    /// Index of the `NetworkStateChanged` slot of the vtable at `vtable_rva`
    /// of the server binary.
    pub fn find_networkvar_vtable_statechanged_rva(&self, vtable_rva: u64) -> (r: Result<u64, S2Error>)
        requires
            self.wf(),
        ensures
            r == self.spec_find_netvar(vtable_rva),
    {
        let count = self.get_vtable_vfunc_count_by_rva("server", vtable_rva)?;
        let mut i: usize = 0;
        while i < count
            invariant
                self.wf(),
                self.spec_find_netvar(vtable_rva) == self.spec_netvar_from(vtable_rva, count, 0),
                self.spec_netvar_from(vtable_rva, count, 0) == self.spec_netvar_from(vtable_rva, count, i),
            decreases count - i,
        {
            let f = self.read_slot("server", vtable_rva, i)?;
            let code = self.read_by_rva("server", f, 32)?;
            if code_has_path_index_compare(code) {
                return Ok(i as u64);
            }
            i = i + 1;
        }
        Err(S2Error::NetworkVarNotFound)
    }

    /// `find_networkvar_vtable_statechanged_rva` for a vtable given by its
    /// process address.
    pub fn find_networkvar_vtable_statechanged(&self, vtable_mem_address: u64) -> (r: Result<u64, S2Error>)
        requires
            self.wf(),
        ensures
            match self.spec_mem_to_rva("server"@, vtable_mem_address) {
                Err(e) => r == Err::<u64, S2Error>(e),
                Ok(vt) => r == self.spec_find_netvar(vt),
            },
    {
        let vt = self.mem_address_to_rva("server", vtable_mem_address)?;
        self.find_networkvar_vtable_statechanged_rva(vt)
    }

    /// What `is_nullsub_rva` returns.
    pub open spec fn spec_is_nullsub(&self, bin: Seq<char>, func_rva: u64) -> Result<bool, S2Error> {
        match self.spec_read_rva(bin, func_rva, 3) {
            Err(e) => Err(e),
            Ok(b) => Ok(spec_is_nullsub_bytes(b)),
        }
    }

    /// Whether the function at address `func_rva` returns at once.
    pub fn is_nullsub_rva(&self, binary_name: &str, func_rva: u64) -> (r: Result<bool, S2Error>)
        requires
            self.wf(),
        ensures
            r == self.spec_is_nullsub(binary_name@, func_rva),
    {
        let b = self.read_by_rva(binary_name, func_rva, 3)?;
        Ok(b[0] == 0xC2 || b[0] == 0xC3 || (b[0] == 0xB0 && b[1] == 0x01 && b[2] == 0xC3))
    }

    /// `is_nullsub_rva` for a function given by its process address, which
    /// is converted through the server binary's module.
    pub fn is_nullsub(&self, binary_name: &str, func_mem_address: u64) -> (r: Result<bool, S2Error>)
        requires
            self.wf(),
        ensures
            match self.spec_mem_to_rva("server"@, func_mem_address) {
                Err(e) => r == Err::<bool, S2Error>(e),
                Ok(f) => r == self.spec_is_nullsub(binary_name@, f),
            },
    {
        let f = self.mem_address_to_rva("server", func_mem_address)?;
        self.is_nullsub_rva(binary_name, f)
    }
}

} // verus!
