//! Finding the start of the function that holds an address: from the call
//! targets, from the vtables' slots, and from the padding between functions;
//! and the functions that refer to a string.
use vstd::prelude::*;
use vstd::string::StringSliceAdditionalSpecFns;

use crate::error::S2Error;
use crate::objfile::SectionRecord;
use crate::s2binlib::S2BinLib;
use crate::vtable::VTableInfo;

verus! {

/// The scan over the vtables' slots for the nearest function start below
/// `x`, from slot `b` of vtable `a` on, with the best (vtable, slot,
/// address) found so far: a slot replaces the best when its address is
/// below `x` and above the best address (above 0 when there is none yet).
pub open spec fn vfunc_scan(vts: Seq<VTableInfo>, x: u64, a: int, b: int, best: Option<(int, int, u64)>) -> Option<(int, int, u64)>
    decreases vts.len() - a, (if 0 <= a < vts.len() { vts[a].methods@.len() - b } else { 0 }),
{
    if a < 0 || a >= vts.len() {
        best
    } else if b < 0 || b >= vts[a].methods@.len() {
        vfunc_scan(vts, x, a + 1, 0, best)
    } else {
        let f = vts[a].methods@[b];
        let nearest = match best {
            Some((_, _, v)) => v,
            None => 0,
        };
        let next = if f > nearest && f < x { Some((a, b, f)) } else { best };
        vfunc_scan(vts, x, a, b + 1, next)
    }
}

/// The first section, from position `i` of `t` on, whose address range
/// holds `x`.
pub open spec fn section_holding(t: Seq<SectionRecord>, x: u64, i: int) -> Option<int>
    decreases t.len() - i,
{
    if i < 0 || i >= t.len() {
        None
    } else if x >= t[i].address && x < t[i].address.wrapping_add(t[i].size) {
        Some(i)
    } else {
        section_holding(t, x, i + 1)
    }
}

/// Walking back from file offset `i` to `lo`, with `run` padding bytes
/// (0xCC) just seen: the file offset of the first byte of the first run of
/// two; the function after the padding starts two bytes later.
pub open spec fn cc_run_start(d: Seq<u8>, lo: int, i: int, run: int) -> Option<int>
    decreases i - lo,
{
    if i <= lo {
        None
    } else if i - 1 >= d.len() {
        None
    } else if d[i - 1] == 0xCC {
        if run + 1 >= 2 {
            Some(i - 1)
        } else {
            cc_run_start(d, lo, i - 1, run + 1)
        }
    } else {
        cc_run_start(d, lo, i - 1, 0)
    }
}

/// The first section of `secs` whose address range holds `x`.
fn first_section_holding(secs: &Vec<SectionRecord>, x: u64) -> (r: Option<usize>)
    ensures
        match r {
            Some(i) => section_holding(secs@, x, 0) == Some(i as int) && i < secs@.len(),
            None => section_holding(secs@, x, 0) is None,
        },
{
    let mut k: usize = 0;
    while k < secs.len()
        invariant
            k <= secs@.len(),
            section_holding(secs@, x, 0) == section_holding(secs@, x, k as int),
        decreases secs@.len() - k,
    {
        if x >= secs[k].address && x < secs[k].address.wrapping_add(secs[k].size) {
            return Some(k);
        }
        k = k + 1;
    }
    None
}

/// `cc_run_start` from file offset `from` down to `lo`, with no run yet.
fn cc_scan(data: &[u8], lo: u64, from: u64) -> (r: Option<u64>)
    ensures
        match r {
            Some(j) => cc_run_start(data@, lo as int, from as int, 0) == Some(j as int) && lo <= j < data@.len(),
            None => cc_run_start(data@, lo as int, from as int, 0) is None,
        },
{
    let mut i: u64 = from;
    let mut run: u64 = 0;
    while i > lo
        invariant
            run < 2,
            cc_run_start(data@, lo as int, from as int, 0) == cc_run_start(data@, lo as int, i as int, run as int),
        decreases i - lo,
    {
        if i - 1 >= data.len() as u64 {
            return None;
        }
        i = i - 1;
        if data[i as usize] == 0xCC {
            run = run + 1;
            if run >= 2 {
                return Some(i);
            }
        } else {
            run = 0;
        }
    }
    None
}

/// The function start `find_func_start_rva` picks from a call target, a
/// vtable slot and a padding start: the padding start when there is one,
/// else the greater of the other two; an error when that is 0.
pub open spec fn combine_func_start(xref: u64, vfunc: u64, padding: Option<u64>) -> Result<u64, S2Error> {
    let fs = match padding {
        Some(p) => p,
        None => if xref >= vfunc { xref } else { vfunc },
    };
    if fs == 0 {
        Err(S2Error::FunctionNotFound)
    } else {
        Ok(fs)
    }
}

impl S2BinLib {
    /// The vtables dumped for binary `bin` (none when there are none).
    pub open spec fn vtables_of(&self, bin: Seq<char>) -> Seq<VTableInfo> {
        if self.vtables_view().contains_key(bin) {
            self.vtables_view()[bin]
        } else {
            Seq::empty()
        }
    }

    /// The vtable slot whose address is the greatest below `include_rva`
    /// among the dumped vtables of binary `binary_name` (the first such in
    /// vtable and slot order): the vtable, the slot and the address.
    pub fn find_vfunc_start_rva(&self, binary_name: &str, include_rva: u64) -> (r: Option<(&VTableInfo, usize, u64)>)
        requires
            self.wf(),
        ensures
            match vfunc_scan(self.vtables_of(binary_name@), include_rva, 0, 0, None) {
                None => r is None,
                Some((a, b, f)) => r matches Some((vt, i, v)) && 0 <= a < self.vtables_of(binary_name@).len()
                    && *vt == self.vtables_of(binary_name@)[a] && i == b && v == f,
            },
    {
        proof {
            self.lemma_wf();
        }
        let vtables = match self.vtables.get(binary_name) {
            Some(v) => v,
            None => {
                return None;
            },
        };
        let ghost vts = vtables@;
        assert(vts == self.vtables_of(binary_name@));
        let mut best: Option<(usize, usize, u64)> = None;
        let mut nearest: u64 = 0;
        let mut a: usize = 0;
        while a < vtables.len()
            invariant
                vts == vtables@,
                a <= vts.len(),
                nearest == (match best { Some((_, _, v)) => v, None => 0u64 }),
                forall|x: usize, y: usize, z: u64| best == Some((x, y, z)) ==> x < vts.len() && y < vts[x as int].methods@.len(),
                vfunc_scan(vts, include_rva, 0, 0, None) == vfunc_scan(vts, include_rva, a as int, 0,
                    match best { Some((x, y, z)) => Some((x as int, y as int, z)), None => None }),
            decreases vts.len() - a,
        {
            let methods = &vtables[a].methods;
            let mut b: usize = 0;
            while b < methods.len()
                invariant
                    vts == vtables@,
                    a < vts.len(),
                    *methods == vts[a as int].methods,
                    b <= methods@.len(),
                    nearest == (match best { Some((_, _, v)) => v, None => 0u64 }),
                    forall|x: usize, y: usize, z: u64| best == Some((x, y, z)) ==> x < vts.len() && y < vts[x as int].methods@.len(),
                    vfunc_scan(vts, include_rva, 0, 0, None) == vfunc_scan(vts, include_rva, a as int, b as int,
                        match best { Some((x, y, z)) => Some((x as int, y as int, z)), None => None }),
                decreases methods@.len() - b,
            {
                let f = methods[b];
                if f > nearest && f < include_rva {
                    nearest = f;
                    best = Some((a, b, f));
                }
                b = b + 1;
            }
            a = a + 1;
        }
        match best {
            Some((x, y, z)) => Some((&vtables[x], y, z)),
            None => None,
        }
    }

    /// `find_vfunc_start_rva`, with the address as a process address; an
    /// error when no slot qualifies.
    pub fn find_vfunc_start(&self, binary_name: &str, include_rva: u64) -> (r: Result<(&VTableInfo, usize, u64), S2Error>)
        requires
            self.wf(),
        ensures
            match vfunc_scan(self.vtables_of(binary_name@), include_rva, 0, 0, None) {
                None => r == Err::<(&VTableInfo, usize, u64), S2Error>(S2Error::VfuncNotFound),
                Some((a, b, f)) => match self.spec_rva_to_mem(binary_name@, f) {
                    Err(e) => r == Err::<(&VTableInfo, usize, u64), S2Error>(e),
                    Ok(m) => r matches Ok((vt, i, v)) && *vt == self.vtables_of(binary_name@)[a] && i == b && v == m,
                },
            },
    {
        match self.find_vfunc_start_rva(binary_name, include_rva) {
            None => Err(S2Error::VfuncNotFound),
            Some((vt, i, f)) => {
                let m = self.rva_to_mem_address(binary_name, f)?;
                Ok((vt, i, m))
            },
        }
    }

    /// What `find_func_start_via_padding_rva` returns.
    pub open spec fn spec_padding_start(&self, bin: Seq<char>, x: u64) -> Option<u64> {
        match self.spec_sections(bin) {
            Err(_) => None,
            Ok(t) => match section_holding(t, x, 0) {
                None => None,
                Some(i) => match t[i].file_range {
                    None => None,
                    Some((fs, _)) => match self.spec_rva_to_offset(bin, x) {
                        Err(_) => None,
                        Ok(off) => match cc_run_start(self.binaries_view()[bin], fs as int, off as int, 0) {
                            None => None,
                            Some(j) => Some(t[i].address.wrapping_add(((j - fs) as u64).wrapping_add(2))),
                        },
                    },
                },
            },
        }
    }

    /// The start of the function holding `include_rva`, from the padding
    /// bytes before it in its section: the address just past the nearest
    /// run of two or more 0xCC bytes before it.
    fn find_func_start_via_padding_rva(&self, binary_name: &str, include_rva: u64) -> (r: Option<u64>)
        requires
            self.wf(),
        ensures
            r == self.spec_padding_start(binary_name@, include_rva),
    {
        let secs = match self.sections_of(binary_name) {
            Ok(s) => s,
            Err(_) => {
                return None;
            },
        };
        let k = first_section_holding(&secs, include_rva)?;
        let section_rva = secs[k].address;
        let file_start = match secs[k].file_range {
            Some((s, _)) => s,
            None => {
                return None;
            },
        };
        let off = match self.rva_to_file_offset(binary_name, include_rva) {
            Ok(o) => o,
            Err(_) => {
                return None;
            },
        };
        let data = match self.get_binary(binary_name) {
            Ok(d) => d,
            Err(_) => {
                return None;
            },
        };
        let j = cc_scan(data, file_start, off)?;
        Some(section_rva.wrapping_add((j - file_start).wrapping_add(2)))
    }

    /// The start of the function holding `include_rva`: the padding start
    /// when the code before it has padding, else the greater of the nearest
    /// call target and the nearest vtable slot below it; an error when
    /// neither gives one.
    pub fn find_func_start_rva(&self, binary_name: &str, include_rva: u64) -> (r: Result<u64, S2Error>)
        requires
            self.wf(),
        ensures
            exists|xr: u64| self.spec_xref_func_start(binary_name@, include_rva, xr) && r == combine_func_start(
                xr,
                match vfunc_scan(self.vtables_of(binary_name@), include_rva, 0, 0, None) {
                    Some((_, _, f)) => f,
                    None => 0,
                },
                self.spec_padding_start(binary_name@, include_rva),
            ),
    {
        let xref = self.find_xref_func_start_rva(binary_name, include_rva)?;
        let vfunc = match self.find_vfunc_start_rva(binary_name, include_rva) {
            Some((_, _, f)) => f,
            None => 0,
        };
        let mut fs = if xref >= vfunc { xref } else { vfunc };
        if let Some(p) = self.find_func_start_via_padding_rva(binary_name, include_rva) {
            fs = p;
        }
        if fs == 0 {
            Err(S2Error::FunctionNotFound)
        } else {
            Ok(fs)
        }
    }

    /// `find_func_start_rva`, as a process address.
    pub fn find_func_start(&self, binary_name: &str, include_rva: u64) -> (r: Result<u64, S2Error>)
        requires
            self.wf(),
        ensures
            exists|xr: u64| self.spec_xref_func_start(binary_name@, include_rva, xr) && match combine_func_start(
                xr,
                match vfunc_scan(self.vtables_of(binary_name@), include_rva, 0, 0, None) {
                    Some((_, _, f)) => f,
                    None => 0,
                },
                self.spec_padding_start(binary_name@, include_rva),
            ) {
                Err(e) => r == Err::<u64, S2Error>(e),
                Ok(fs) => r == self.spec_rva_to_mem(binary_name@, fs),
            },
    {
        let fs = self.find_func_start_rva(binary_name, include_rva)?;
        self.rva_to_mem_address(binary_name, fs)
    }

    /// What `get_string_reference_xref` returns: the one instruction that
    /// refers to the first occurrence of the string's bytes.
    pub open spec fn spec_string_ref(&self, bin: Seq<char>, bytes: Seq<u8>) -> Result<u64, S2Error> {
        match self.spec_find_string_rva(bin, bytes) {
            Err(e) => Err(e),
            Ok(sr) => if !(self.xrefs_view().contains_key(bin) && self.xrefs_view()[bin].contains_key(sr))
                || self.xrefs_view()[bin][sr].len() < 1 {
                Err(S2Error::StringReferenceNotFound)
            } else if self.xrefs_view()[bin][sr].len() > 1 {
                Err(S2Error::MultipleStringReferences)
            } else {
                Ok(self.xrefs_view()[bin][sr][0])
            },
        }
    }

    /// The address of the one instruction that refers to `string` in binary
    /// `binary_name`, by the cached cross-references.
    fn get_string_reference_xref(&self, binary_name: &str, string: &str) -> (r: Result<u64, S2Error>)
        requires
            self.wf(),
        ensures
            r == self.spec_string_ref(binary_name@, string.spec_bytes()),
    {
        let sr = self.find_string_rva(binary_name, string)?;
        let refs = match self.find_xrefs_cached(binary_name, sr) {
            Some(v) => v,
            None => {
                return Err(S2Error::StringReferenceNotFound);
            },
        };
        if refs.len() < 1 {
            return Err(S2Error::StringReferenceNotFound);
        }
        if refs.len() > 1 {
            return Err(S2Error::MultipleStringReferences);
        }
        Ok(refs[0])
    }

    /// The call target just before the instruction that refers to `string`.
    pub fn find_xref_func_with_string_rva(&self, binary_name: &str, string: &str) -> (r: Result<u64, S2Error>)
        requires
            self.wf(),
        ensures
            match self.spec_string_ref(binary_name@, string.spec_bytes()) {
                Err(e) => r == Err::<u64, S2Error>(e),
                Ok(x) => r matches Ok(v) && self.spec_xref_func_start(binary_name@, x, v),
            },
    {
        let x = self.get_string_reference_xref(binary_name, string)?;
        self.find_xref_func_start_rva(binary_name, x)
    }

    /// `find_xref_func_with_string_rva`, as a process address.
    pub fn find_xref_func_with_string(&self, binary_name: &str, string: &str) -> (r: Result<u64, S2Error>)
        requires
            self.wf(),
        ensures
            match self.spec_string_ref(binary_name@, string.spec_bytes()) {
                Err(e) => r == Err::<u64, S2Error>(e),
                Ok(x) => exists|v: u64| self.spec_xref_func_start(binary_name@, x, v) && r == self.spec_rva_to_mem(binary_name@, v),
            },
    {
        let v = self.find_xref_func_with_string_rva(binary_name, string)?;
        self.rva_to_mem_address(binary_name, v)
    }

    /// The nearest vtable slot below the instruction that refers to
    /// `string`; an error when no slot qualifies.
    pub fn find_vfunc_with_string_rva(&self, binary_name: &str, string: &str) -> (r: Result<(&VTableInfo, usize, u64), S2Error>)
        requires
            self.wf(),
        ensures
            match self.spec_string_ref(binary_name@, string.spec_bytes()) {
                Err(e) => r == Err::<(&VTableInfo, usize, u64), S2Error>(e),
                Ok(x) => match vfunc_scan(self.vtables_of(binary_name@), x, 0, 0, None) {
                    None => r == Err::<(&VTableInfo, usize, u64), S2Error>(S2Error::VfuncNotFound),
                    Some((a, b, f)) => r matches Ok((vt, i, v)) && *vt == self.vtables_of(binary_name@)[a] && i == b && v == f,
                },
            },
    {
        let x = self.get_string_reference_xref(binary_name, string)?;
        match self.find_vfunc_start_rva(binary_name, x) {
            None => Err(S2Error::VfuncNotFound),
            Some(t) => Ok(t),
        }
    }

    /// `find_vfunc_with_string_rva`, with the address as a process address.
    pub fn find_vfunc_with_string(&self, binary_name: &str, string: &str) -> (r: Result<(&VTableInfo, usize, u64), S2Error>)
        requires
            self.wf(),
        ensures
            match self.spec_string_ref(binary_name@, string.spec_bytes()) {
                Err(e) => r == Err::<(&VTableInfo, usize, u64), S2Error>(e),
                Ok(x) => match vfunc_scan(self.vtables_of(binary_name@), x, 0, 0, None) {
                    None => r == Err::<(&VTableInfo, usize, u64), S2Error>(S2Error::VfuncNotFound),
                    Some((a, b, f)) => match self.spec_rva_to_mem(binary_name@, f) {
                        Err(e) => r == Err::<(&VTableInfo, usize, u64), S2Error>(e),
                        Ok(m) => r matches Ok((vt, i, v)) && *vt == self.vtables_of(binary_name@)[a] && i == b && v == m,
                    },
                },
            },
    {
        let (vt, i, f) = self.find_vfunc_with_string_rva(binary_name, string)?;
        let m = self.rva_to_mem_address(binary_name, f)?;
        Ok((vt, i, m))
    }

    /// The start of the function holding the instruction that refers to
    /// `string`.
    pub fn find_func_with_string_rva(&self, binary_name: &str, string: &str) -> (r: Result<u64, S2Error>)
        requires
            self.wf(),
        ensures
            match self.spec_string_ref(binary_name@, string.spec_bytes()) {
                Err(e) => r == Err::<u64, S2Error>(e),
                Ok(x) => exists|xr: u64| self.spec_xref_func_start(binary_name@, x, xr) && r == combine_func_start(
                    xr,
                    match vfunc_scan(self.vtables_of(binary_name@), x, 0, 0, None) {
                        Some((_, _, f)) => f,
                        None => 0,
                    },
                    self.spec_padding_start(binary_name@, x),
                ),
            },
    {
        let x = self.get_string_reference_xref(binary_name, string)?;
        self.find_func_start_rva(binary_name, x)
    }

    /// `find_func_with_string_rva`, as a process address.
    pub fn find_func_with_string(&self, binary_name: &str, string: &str) -> (r: Result<u64, S2Error>)
        requires
            self.wf(),
        ensures
            match self.spec_string_ref(binary_name@, string.spec_bytes()) {
                Err(e) => r == Err::<u64, S2Error>(e),
                Ok(x) => exists|xr: u64| self.spec_xref_func_start(binary_name@, x, xr) && match combine_func_start(
                    xr,
                    match vfunc_scan(self.vtables_of(binary_name@), x, 0, 0, None) {
                        Some((_, _, f)) => f,
                        None => 0,
                    },
                    self.spec_padding_start(binary_name@, x),
                ) {
                    Err(e) => r == Err::<u64, S2Error>(e),
                    Ok(fs) => r == self.spec_rva_to_mem(binary_name@, fs),
                },
            },
    {
        let x = self.get_string_reference_xref(binary_name, string)?;
        self.find_func_start(binary_name, x)
    }

    /// The vtables dumped for binary `binary_name`; an error when they have
    /// not been dumped.
    pub fn get_vtables(&self, binary_name: &str) -> (r: Result<&Vec<VTableInfo>, S2Error>)
        requires
            self.wf(),
        ensures
            match r {
                Ok(v) => self.vtables_view().contains_key(binary_name@) && v@ == self.vtables_view()[binary_name@],
                Err(e) => !self.vtables_view().contains_key(binary_name@) && e == S2Error::VtablesNotDumped,
            },
    {
        proof {
            self.lemma_wf();
        }
        match self.vtables.get(binary_name) {
            Some(v) => Ok(v),
            None => Err(S2Error::VtablesNotDumped),
        }
    }

    /// The string table dumped for binary `binary_name`, if any: each
    /// string with the address of its first byte.
    pub fn get_strings(&self, binary_name: &str) -> (r: Option<&crate::store::NamedStore<u64>>)
        requires
            self.wf(),
        ensures
            match r {
                Some(t) => t.wf() && self.strings_view().contains_key(binary_name@) && t.view() == self.strings_view()[binary_name@],
                None => !self.strings_view().contains_key(binary_name@),
            },
    {
        proof {
            self.lemma_wf();
        }
        self.strings_cache.get(binary_name)
    }
}

} // verus!
