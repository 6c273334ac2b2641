//! Finding a vtable of a loaded binary by its class name, through the RTTI
//! records that the compiler emitted for the class, and reading its slots.
use vstd::prelude::*;
use vstd::utf8::encode_utf8;

use crate::bytes::{le_u64_at, le_u32_at, read_int32, read_u64_le};
use crate::error::S2Error;
use crate::pattern::{find_first, pattern_search};
use crate::s2binlib::{is_windows, S2BinLib};
use crate::scan::{le_bytes_of, le_bytes_u32};
use crate::text::{decimal, push_decimal, str_eq};

verus! {

broadcast use vstd::string::group_string_axioms;

/// The byte length of the UTF-8 encoding of `s`, as a `usize`.
pub open spec fn byte_len(s: Seq<char>) -> nat {
    (encode_utf8(s).len() as usize) as nat
}

/// The name under which the RTTI of class `name` is stored: `.?AV<name>@@`
/// on Windows, `<byte length><name>` elsewhere.
pub open spec fn spec_decorate_name(os: Seq<char>, name: Seq<char>) -> Seq<char> {
    if is_windows(os) {
        ".?AV"@ + name + "@@"@
    } else {
        decimal(byte_len(name)) + name
    }
}

/// The RTTI name of class `class2` nested in `class1`: `.?AV<class2>@<class1>@@`
/// on Windows, `N<len1><class1><len2><class2>E` elsewhere.
pub open spec fn spec_decorate_nested_2(os: Seq<char>, class1: Seq<char>, class2: Seq<char>) -> Seq<char> {
    if is_windows(os) {
        ".?AV"@ + class2 + "@"@ + class1 + "@@"@
    } else {
        "N"@ + decimal(byte_len(class1)) + class1 + decimal(byte_len(class2)) + class2 + "E"@
    }
}

/// The bytes of `v` in little-endian order.
pub open spec fn le_bytes_u64(v: u64) -> Seq<u8> {
    seq![
        (v % 0x100) as u8,
        ((v / 0x100) % 0x100) as u8,
        ((v / 0x1_0000) % 0x100) as u8,
        ((v / 0x100_0000) % 0x100) as u8,
        ((v / 0x1_0000_0000) % 0x100) as u8,
        ((v / 0x100_0000_0000) % 0x100) as u8,
        ((v / 0x1_0000_0000_0000) % 0x100) as u8,
        (v / 0x100_0000_0000_0000) as u8,
    ]
}

pub(crate) fn le_bytes_u64_of(v: u64) -> (r: Vec<u8>)
    ensures
        r@ == le_bytes_u64(v),
{
    let mut r: Vec<u8> = Vec::new();
    r.push((v % 0x100) as u8);
    r.push(((v / 0x100) % 0x100) as u8);
    r.push(((v / 0x1_0000) % 0x100) as u8);
    r.push(((v / 0x100_0000) % 0x100) as u8);
    r.push(((v / 0x1_0000_0000) % 0x100) as u8);
    r.push(((v / 0x100_0000_0000) % 0x100) as u8);
    r.push(((v / 0x1_0000_0000_0000) % 0x100) as u8);
    r.push((v / 0x100_0000_0000_0000) as u8);
    proof {
        assert(r@ =~= le_bytes_u64(v));
    }
    r
}

impl S2BinLib {
    /// `spec_decorate_name` for this library's OS.
    pub(crate) fn decorate_rtti_type_descriptor_name(&self, name: &str) -> (r: String)
        ensures
            r@ == spec_decorate_name(self.os_view(), name@),
    {
        if self.is_windows_os() {
            let mut s = ".?AV".to_owned();
            s.append(name);
            s.append("@@");
            s
        } else {
            let mut s = String::new();
            push_decimal(&mut s, name.len());
            proof {
                assert(Seq::<char>::empty() + decimal(name.len() as nat) =~= decimal(byte_len(name@)));
            }
            s.append(name);
            s
        }
    }

    /// `spec_decorate_nested_2` for this library's OS.
    pub(crate) fn decorate_rtti_type_descriptor_name_nested_2(&self, class1: &str, class2: &str) -> (r: String)
        ensures
            r@ == spec_decorate_nested_2(self.os_view(), class1@, class2@),
    {
        if self.is_windows_os() {
            let mut s = ".?AV".to_owned();
            s.append(class2);
            s.append("@");
            s.append(class1);
            s.append("@@");
            s
        } else {
            let mut s = "N".to_owned();
            push_decimal(&mut s, class1.len());
            s.append(class1);
            push_decimal(&mut s, class2.len());
            s.append(class2);
            s.append("E");
            s
        }
    }
}


impl S2BinLib {
    /// At a reference to the type descriptor: when the dwords 12 and 8
    /// bytes before it read 1 and 0, the address of the dword 12 bytes before
    /// is searched for in `.rdata`; a hit gives the vtable (8 bytes past it),
    /// a failure gives its error, and a miss (`None`) moves on.
    pub open spec fn spec_win_located(&self, bin: Seq<char>, reference: u64) -> Option<Result<u64, S2Error>> {
        let d = self.binaries_view()[bin];
        if le_u32_at(d, reference - 12) == 1 && le_u32_at(d, reference - 8) == 0 {
            match self.spec_offset_to_rva(bin, (reference - 12) as u64) {
                Err(e) => Some(Err(e)),
                Ok(ro) => match self.spec_find_in_section(bin, ".rdata"@, le_bytes_u32(ro as u32)) {
                    Err(e) => Some(Err(e)),
                    Ok(col) => if col != 0 {
                        Some(self.spec_offset_to_rva(bin, col.wrapping_add(8)))
                    } else {
                        None
                    },
                },
            }
        } else {
            None
        }
    }

    /// The Windows search for a complete object locator, from a reference
    /// `reference` to the type descriptor found in `.rdata`: where the two
    /// dwords before the reference's base-class slot read 1 and 0, the
    /// reference is a class hierarchy entry whose locator is looked up by
    /// its address, and the vtable begins 8 bytes after that locator's
    /// reference; otherwise the next reference before `end` is tried.
    pub open spec fn spec_win_locator_from(&self, bin: Seq<char>, end: u64, pat: Seq<u8>, reference: u64) -> Result<u64, S2Error>
        decreases end - reference,
    {
        let d = self.binaries_view()[bin];
        if reference < 12 || reference - 8 > d.len() {
            Err(S2Error::ReadOutOfBounds)
        } else if le_u32_at(d, reference - 12) == 1 && reference - 4 > d.len() {
            Err(S2Error::ReadOutOfBounds)
        } else {
            let located = self.spec_win_located(bin, reference);
            match located {
                Some(r) => r,
                None => {
                    let last = reference + 1;
                    if last > end || end > d.len() {
                        Err(S2Error::ReadOutOfBounds)
                    } else {
                        match pattern_search(d.subrange(last, end as int), pat, Seq::empty()) {
                            None => Err(S2Error::VtableNotFound),
                            Some(i) => if i > 0 && last + i < end {
                                self.spec_win_locator_from(bin, end, pat, (last + i) as u64)
                            } else {
                                Err(S2Error::VtableNotFound)
                            },
                        }
                    }
                },
            }
        }
    }

    /// One Windows candidate: the type descriptor whose name was found at
    /// file offset `td`.
    #[verifier::opaque]
    pub open spec fn spec_win_attempt(&self, bin: Seq<char>, td: u64) -> Result<u64, S2Error> {
        match self.spec_offset_to_rva(bin, td) {
            Err(e) => Err(e),
            Ok(tr) => match self.spec_image_base_of(bin) {
                Err(e) => Err(e),
                Ok(ib) => {
                    let rtd = tr.wrapping_sub(0x10).wrapping_sub(ib);
                    match self.spec_section_range(bin, ".rdata"@) {
                        Err(e) => Err(e),
                        Ok((_, end)) => match self.spec_find_in_section(bin, ".rdata"@, le_bytes_u32(rtd as u32)) {
                            Err(e) => Err(e),
                            Ok(reference) => if reference == 0 {
                                Err(S2Error::VtableNotFound)
                            } else {
                                self.spec_win_locator_from(bin, end, le_bytes_u32(rtd as u32), reference)
                            },
                        },
                    }
                },
            },
        }
    }

    /// The candidates tried in order: the first success, else the error of
    /// the last one tried (`last` when there is none).
    pub open spec fn spec_win_over(&self, bin: Seq<char>, cands: Seq<u64>, last: S2Error) -> Result<u64, S2Error>
        decreases cands.len(),
    {
        if cands.len() == 0 {
            Err(last)
        } else {
            match self.spec_win_attempt(bin, cands[0]) {
                Ok(r) => Ok(r),
                Err(e) => self.spec_win_over(bin, cands.drop_first(), e),
            }
        }
    }

    /// What the Windows vtable lookup of RTTI name `mangled` returns.
    pub open spec fn spec_vtable_windows(&self, bin: Seq<char>, mangled: Seq<char>) -> Result<u64, S2Error> {
        match self.spec_string_hits_in_section(bin, ".data"@, encode_utf8(mangled)) {
            Err(e) => Err(e),
            Ok(c) => self.spec_win_over(bin, c, S2Error::VtableNotFound),
        }
    }

    fn win_located(&self, binary_name: &str, data: &[u8], reference: u64) -> (r: Option<Result<u64, S2Error>>)
        requires
            self.wf(),
            self.binaries_view().contains_key(binary_name@),
            data@ == self.binaries_view()[binary_name@],
            12 <= reference,
            reference - 8 <= data@.len(),
            le_u32_at(data@, reference - 12) == 1 ==> reference - 4 <= data@.len(),
        ensures
            r == self.spec_win_located(binary_name@, reference),
    {
        if read_int32(data, reference - 12) != 1 || read_int32(data, reference - 8) != 0 {
            return None;
        }
        let ro = match self.file_offset_to_rva(binary_name, reference - 12) {
            Ok(v) => v,
            Err(e) => {
                return Some(Err(e));
            },
        };
        let col = match self.find_pattern_int32_in_section(binary_name, ".rdata", ro as u32) {
            Ok(v) => v,
            Err(e) => {
                return Some(Err(e));
            },
        };
        if col != 0 {
            Some(self.file_offset_to_rva(binary_name, col.wrapping_add(8)))
        } else {
            None
        }
    }

    fn win_locator_from(&self, binary_name: &str, end: u64, pat: &[u8], start_ref: u64) -> (r: Result<u64, S2Error>)
        requires
            self.wf(),
            self.binaries_view().contains_key(binary_name@),
            pat@.len() > 0,
        ensures
            r == self.spec_win_locator_from(binary_name@, end, pat@, start_ref),
    {
        let data = self.get_binary(binary_name)?;
        let no_wildcards: Vec<usize> = Vec::new();
        let mut reference = start_ref;
        loop
            invariant
                self.wf(),
                self.binaries_view().contains_key(binary_name@),
                data@ == self.binaries_view()[binary_name@],
                no_wildcards@ == Seq::<usize>::empty(),
                pat@.len() > 0,
                self.spec_win_locator_from(binary_name@, end, pat@, start_ref)
                    == self.spec_win_locator_from(binary_name@, end, pat@, reference),
            decreases end - reference,
        {
            if reference < 12 || reference - 8 > data.len() as u64 {
                return Err(S2Error::ReadOutOfBounds);
            }
            if read_int32(data, reference - 12) == 1 && reference - 4 > data.len() as u64 {
                return Err(S2Error::ReadOutOfBounds);
            }
            if let Some(r) = self.win_located(binary_name, data, reference) {
                return r;
            }
            if reference >= end || end > data.len() as u64 {
                return Err(S2Error::ReadOutOfBounds);
            }
            let last = reference + 1;
            let part = vstd::slice::slice_subrange(data, last as usize, end as usize);
            match find_first(part, pat, no_wildcards.as_slice()) {
                Err(_) => {
                    return Err(S2Error::VtableNotFound);
                },
                Ok(i) => {
                    if i == 0 {
                        return Err(S2Error::VtableNotFound);
                    }
                    reference = i + last;
                },
            }
        }
    }

    fn win_attempt(&self, binary_name: &str, td: u64) -> (r: Result<u64, S2Error>)
        requires
            self.wf(),
        ensures
            r == self.spec_win_attempt(binary_name@, td),
    {
        reveal(S2BinLib::spec_win_attempt);
        let tr = self.file_offset_to_rva(binary_name, td)?;
        let ib = self.get_image_base(binary_name)?;
        let rtd = tr.wrapping_sub(0x10).wrapping_sub(ib);
        let (_start, end) = self.get_section_range(binary_name, ".rdata")?;
        let pat = le_bytes_of(rtd as u32);
        let reference = self.find_pattern_int32_in_section(binary_name, ".rdata", rtd as u32)?;
        if reference == 0 {
            return Err(S2Error::VtableNotFound);
        }
        self.win_locator_from(binary_name, end, pat.as_slice(), reference)
    }

    /// Address of the vtable whose RTTI type descriptor is named `vtable_name`
    /// in a PE binary.
    fn find_vtable_rva_windows(&self, binary_name: &str, vtable_name: &str) -> (r: Result<u64, S2Error>)
        requires
            self.wf(),
        ensures
            r == self.spec_vtable_windows(binary_name@, vtable_name@),
    {
        let candidates = self.find_all_pattern_string_in_section(binary_name, ".data", vtable_name)?;
        let mut last = S2Error::VtableNotFound;
        let mut i: usize = 0;
        proof {
            assert(candidates@.skip(0) == candidates@);
        }
        while i < candidates.len()
            invariant
                self.wf(),
                i <= candidates@.len(),
                self.spec_vtable_windows(binary_name@, vtable_name@)
                    == self.spec_win_over(binary_name@, candidates@, S2Error::VtableNotFound),
                self.spec_win_over(binary_name@, candidates@, S2Error::VtableNotFound)
                    == self.spec_win_over(binary_name@, candidates@.skip(i as int), last),
            decreases candidates@.len() - i,
        {
            proof {
                assert(candidates@.skip(i as int).drop_first() =~= candidates@.skip(i + 1));
                assert(candidates@.skip(i as int)[0] == candidates@[i as int]);
            }
            match self.win_attempt(binary_name, candidates[i]) {
                Ok(r) => {
                    assert(self.spec_win_over(binary_name@, candidates@.skip(i as int), last) == Ok::<u64, S2Error>(r));
                    return Ok(r);
                },
                Err(e) => {
                    last = e;
                },
            }
            i = i + 1;
        }
        proof {
            assert(candidates@.skip(i as int).len() == 0);
        }
        Err(last)
    }
}


impl S2BinLib {
    /// The Linux search for a vtable in a section ending at `end`, from file
    /// offset `so`: each occurrence of the address of the `type_info`
    /// (`pat`) preceded by a zero `offset_to_top` gives the vtable, 8 bytes
    /// past the occurrence; `None` when the section holds no such occurrence.
    pub open spec fn spec_linux_refs(&self, bin: Seq<char>, end: u64, pat: Seq<u8>, so: u64) -> Result<Option<u64>, S2Error>
        decreases end - so,
    {
        let d = self.binaries_view()[bin];
        if so > end || end > d.len() {
            Err(S2Error::ReadOutOfBounds)
        } else {
            match pattern_search(d.subrange(so as int, end as int), pat, Seq::empty()) {
                None => Ok(None),
                Some(i) => if i <= 0 {
                    Ok(None)
                } else {
                    let r = so + i;
                    if r >= 8 && le_u64_at(d, r - 8) == 0 {
                        match self.spec_offset_to_rva(bin, (r + 8) as u64) {
                            Ok(v) => Ok(Some(v)),
                            Err(e) => Err(e),
                        }
                    } else if r + 8 >= end {
                        Ok(None)
                    } else {
                        self.spec_linux_refs(bin, end, pat, (r + 8) as u64)
                    }
                },
            }
        }
    }

    /// `spec_linux_refs` over section `section`; `None` when the binary has
    /// no such section with file data.
    pub open spec fn spec_linux_in_section(&self, bin: Seq<char>, section: Seq<char>, pat: Seq<u8>) -> Result<Option<u64>, S2Error> {
        match self.spec_section_range(bin, section) {
            Err(_) => Ok(None),
            Ok((start, end)) => self.spec_linux_refs(bin, end, pat, start),
        }
    }

    /// One Linux candidate: the type name found at file offset `tin`. It must
    /// read back as `name`; the `type_info` that points at it is found in
    /// `.data.rel.ro`, and the vtable that points at that `type_info` in
    /// `.data.rel.ro`, then `.data.rel.ro.local`.
    #[verifier::opaque]
    pub open spec fn spec_linux_attempt(&self, bin: Seq<char>, tin: u64, name: Seq<char>) -> Result<u64, S2Error> {
        match self.spec_read_string(bin, tin) {
            Err(e) => Err(e),
            Ok(s) => if s != name {
                Err(S2Error::VtableNotFound)
            } else {
                match self.spec_offset_to_rva(bin, tin) {
                    Err(e) => Err(e),
                    Ok(tr) => match self.spec_find_in_section(bin, ".data.rel.ro"@, le_bytes_u32(tr as u32)) {
                        Err(e) => Err(e),
                        Ok(rtn) => if rtn == 0 {
                            Err(S2Error::VtableNotFound)
                        } else {
                            match self.spec_offset_to_rva(bin, rtn.wrapping_sub(8)) {
                                Err(e) => Err(e),
                                Ok(ti) => match self.spec_linux_in_section(bin, ".data.rel.ro"@, le_bytes_u64(ti)) {
                                    Err(e) => Err(e),
                                    Ok(Some(v)) => Ok(v),
                                    Ok(None) => match self.spec_linux_in_section(bin, ".data.rel.ro.local"@, le_bytes_u64(ti)) {
                                        Err(e) => Err(e),
                                        Ok(Some(v)) => Ok(v),
                                        Ok(None) => Err(S2Error::VtableNotFound),
                                    },
                                },
                            }
                        },
                    },
                }
            },
        }
    }

    /// The Linux candidates tried in order: the first success, else the
    /// error of the last one tried (`last` when there is none).
    pub open spec fn spec_linux_over(&self, bin: Seq<char>, cands: Seq<u64>, name: Seq<char>, last: S2Error) -> Result<u64, S2Error>
        decreases cands.len(),
    {
        if cands.len() == 0 {
            Err(last)
        } else {
            match self.spec_linux_attempt(bin, cands[0], name) {
                Ok(r) => Ok(r),
                Err(e) => self.spec_linux_over(bin, cands.drop_first(), name, e),
            }
        }
    }

    /// What the Linux vtable lookup of RTTI name `mangled` returns.
    pub open spec fn spec_vtable_linux(&self, bin: Seq<char>, mangled: Seq<char>) -> Result<u64, S2Error> {
        match self.spec_string_hits_in_section(bin, ".rodata"@, encode_utf8(mangled)) {
            Err(e) => Err(e),
            Ok(c) => self.spec_linux_over(bin, c, mangled, S2Error::VtableNotFound),
        }
    }

    fn linux_refs(&self, binary_name: &str, end: u64, pat: &[u8], start: u64) -> (r: Result<Option<u64>, S2Error>)
        requires
            self.wf(),
            self.binaries_view().contains_key(binary_name@),
            pat@.len() == 8,
        ensures
            r == self.spec_linux_refs(binary_name@, end, pat@, start),
    {
        let data = self.get_binary(binary_name)?;
        let no_wildcards: Vec<usize> = Vec::new();
        let mut so = start;
        loop
            invariant
                self.wf(),
                self.binaries_view().contains_key(binary_name@),
                data@ == self.binaries_view()[binary_name@],
                no_wildcards@ == Seq::<usize>::empty(),
                pat@.len() == 8,
                self.spec_linux_refs(binary_name@, end, pat@, start) == self.spec_linux_refs(binary_name@, end, pat@, so),
            decreases end - so,
        {
            if so > end || end > data.len() as u64 {
                return Err(S2Error::ReadOutOfBounds);
            }
            let part = vstd::slice::slice_subrange(data, so as usize, end as usize);
            match find_first(part, pat, no_wildcards.as_slice()) {
                Err(_) => {
                    return Ok(None);
                },
                Ok(i) => {
                    if i == 0 {
                        return Ok(None);
                    }
                    let r = so + i;
                    if r >= 8 && read_u64_le(data, r - 8) == 0 {
                        let v = self.file_offset_to_rva(binary_name, r + 8)?;
                        return Ok(Some(v));
                    }
                    if r + 8 >= end {
                        return Ok(None);
                    }
                    so = r + 8;
                },
            }
        }
    }

    fn linux_in_section(&self, binary_name: &str, section: &str, pat: &[u8]) -> (r: Result<Option<u64>, S2Error>)
        requires
            self.wf(),
            self.binaries_view().contains_key(binary_name@),
            pat@.len() == 8,
        ensures
            r == self.spec_linux_in_section(binary_name@, section@, pat@),
    {
        match self.get_section_range(binary_name, section) {
            Err(_) => Ok(None),
            Ok((start, end)) => self.linux_refs(binary_name, end, pat, start),
        }
    }

    fn linux_attempt(&self, binary_name: &str, tin: u64, vtable_name: &str) -> (r: Result<u64, S2Error>)
        requires
            self.wf(),
        ensures
            r == self.spec_linux_attempt(binary_name@, tin, vtable_name@),
    {
        reveal(S2BinLib::spec_linux_attempt);
        let s = self.read_string(binary_name, tin)?;
        if !str_eq(s.as_str(), vtable_name) {
            return Err(S2Error::VtableNotFound);
        }
        let tr = self.file_offset_to_rva(binary_name, tin)?;
        let name_ptr = le_bytes_of(tr as u32);
        let rtn = self.find_pattern_bytes_in_section(binary_name, ".data.rel.ro", name_ptr.as_slice())?;
        if rtn == 0 {
            return Err(S2Error::VtableNotFound);
        }
        let ti = self.file_offset_to_rva(binary_name, rtn.wrapping_sub(8))?;
        let pat = le_bytes_u64_of(ti);
        if let Some(v) = self.linux_in_section(binary_name, ".data.rel.ro", pat.as_slice())? {
            return Ok(v);
        }
        match self.linux_in_section(binary_name, ".data.rel.ro.local", pat.as_slice())? {
            Some(v) => Ok(v),
            None => Err(S2Error::VtableNotFound),
        }
    }

    /// Address of the vtable whose RTTI type name is `vtable_name` in an ELF
    /// binary.
    fn find_vtable_rva_linux(&self, binary_name: &str, vtable_name: &str) -> (r: Result<u64, S2Error>)
        requires
            self.wf(),
        ensures
            r == self.spec_vtable_linux(binary_name@, vtable_name@),
    {
        let candidates = self.find_all_pattern_string_in_section(binary_name, ".rodata", vtable_name)?;
        let mut last = S2Error::VtableNotFound;
        let mut i: usize = 0;
        proof {
            assert(candidates@.skip(0) == candidates@);
        }
        while i < candidates.len()
            invariant
                self.wf(),
                i <= candidates@.len(),
                self.spec_vtable_linux(binary_name@, vtable_name@)
                    == self.spec_linux_over(binary_name@, candidates@, vtable_name@, S2Error::VtableNotFound),
                self.spec_linux_over(binary_name@, candidates@, vtable_name@, S2Error::VtableNotFound)
                    == self.spec_linux_over(binary_name@, candidates@.skip(i as int), vtable_name@, last),
            decreases candidates@.len() - i,
        {
            proof {
                assert(candidates@.skip(i as int).drop_first() =~= candidates@.skip(i + 1));
                assert(candidates@.skip(i as int)[0] == candidates@[i as int]);
            }
            match self.linux_attempt(binary_name, candidates[i], vtable_name) {
                Ok(r) => {
                    assert(self.spec_linux_over(binary_name@, candidates@.skip(i as int), vtable_name@, last) == Ok::<u64, S2Error>(r));
                    return Ok(r);
                },
                Err(e) => {
                    last = e;
                },
            }
            i = i + 1;
        }
        proof {
            assert(candidates@.skip(i as int).len() == 0);
        }
        Err(last)
    }

    /// What `find_vtable_mangled_rva` returns.
    pub open spec fn spec_vtable_mangled(&self, bin: Seq<char>, mangled: Seq<char>) -> Result<u64, S2Error> {
        if is_windows(self.os_view()) {
            self.spec_vtable_windows(bin, mangled)
        } else {
            self.spec_vtable_linux(bin, mangled)
        }
    }

    /// Address of the vtable whose RTTI name is `vtable_name` as stored in
    /// the binary (already decorated).
    pub fn find_vtable_mangled_rva(&self, binary_name: &str, vtable_name: &str) -> (r: Result<u64, S2Error>)
        requires
            self.wf(),
        ensures
            r == self.spec_vtable_mangled(binary_name@, vtable_name@),
    {
        if self.is_windows_os() {
            self.find_vtable_rva_windows(binary_name, vtable_name)
        } else {
            self.find_vtable_rva_linux(binary_name, vtable_name)
        }
    }

    /// Address of the vtable of class `vtable_name`.
    pub fn find_vtable_rva(&self, binary_name: &str, vtable_name: &str) -> (r: Result<u64, S2Error>)
        requires
            self.wf(),
        ensures
            r == self.spec_vtable_mangled(binary_name@, spec_decorate_name(self.os_view(), vtable_name@)),
    {
        let decorated = self.decorate_rtti_type_descriptor_name(vtable_name);
        self.find_vtable_mangled_rva(binary_name, decorated.as_str())
    }

    /// Address of the vtable of class `class2_name` nested in `class1_name`.
    pub fn find_vtable_nested_2_rva(&self, binary_name: &str, class1_name: &str, class2_name: &str) -> (r: Result<u64, S2Error>)
        requires
            self.wf(),
        ensures
            r == self.spec_vtable_mangled(binary_name@, spec_decorate_nested_2(self.os_view(), class1_name@, class2_name@)),
    {
        let decorated = self.decorate_rtti_type_descriptor_name_nested_2(class1_name, class2_name);
        self.find_vtable_mangled_rva(binary_name, decorated.as_str())
    }

    /// `find_vtable_rva`, as a process address.
    pub fn find_vtable(&self, binary_name: &str, vtable_name: &str) -> (r: Result<u64, S2Error>)
        requires
            self.wf(),
        ensures
            match self.spec_vtable_mangled(binary_name@, spec_decorate_name(self.os_view(), vtable_name@)) {
                Err(e) => r == Err::<u64, S2Error>(e),
                Ok(v) => r == self.spec_rva_to_mem(binary_name@, v),
            },
    {
        let v = self.find_vtable_rva(binary_name, vtable_name)?;
        self.rva_to_mem_address(binary_name, v)
    }

    /// `find_vtable_mangled_rva`, as a process address.
    pub fn find_vtable_mangled(&self, binary_name: &str, vtable_name: &str) -> (r: Result<u64, S2Error>)
        requires
            self.wf(),
        ensures
            match self.spec_vtable_mangled(binary_name@, vtable_name@) {
                Err(e) => r == Err::<u64, S2Error>(e),
                Ok(v) => r == self.spec_rva_to_mem(binary_name@, v),
            },
    {
        let v = self.find_vtable_mangled_rva(binary_name, vtable_name)?;
        self.rva_to_mem_address(binary_name, v)
    }

    /// `find_vtable_nested_2_rva`, as a process address.
    pub fn find_vtable_nested_2(&self, binary_name: &str, class1_name: &str, class2_name: &str) -> (r: Result<u64, S2Error>)
        requires
            self.wf(),
        ensures
            match self.spec_vtable_mangled(binary_name@, spec_decorate_nested_2(self.os_view(), class1_name@, class2_name@)) {
                Err(e) => r == Err::<u64, S2Error>(e),
                Ok(v) => r == self.spec_rva_to_mem(binary_name@, v),
            },
    {
        let v = self.find_vtable_nested_2_rva(binary_name, class1_name, class2_name)?;
        self.rva_to_mem_address(binary_name, v)
    }
}


impl S2BinLib {
    /// The byte offset, from the vtable at `vt`, of its first slot that is
    /// zero or not the address of executable code, counting from `offset`.
    pub open spec fn spec_vfunc_end(&self, bin: Seq<char>, vt: u64, offset: u64) -> Result<u64, S2Error>
        decreases u64::MAX - offset,
    {
        match self.spec_read_rva(bin, vt.wrapping_add(offset), 8) {
            Err(e) => Err(e),
            Ok(b) => {
                let v = le_u64_at(b, 0) as u64;
                if v == 0 {
                    Ok(offset)
                } else {
                    match self.spec_is_valid_executable_rva(bin, v) {
                        Err(e) => Err(e),
                        Ok(false) => Ok(offset),
                        Ok(true) => if offset <= u64::MAX - 8 {
                            self.spec_vfunc_end(bin, vt, (offset + 8) as u64)
                        } else {
                            Err(S2Error::ReadOutOfBounds)
                        },
                    }
                }
            },
        }
    }

    /// Number of virtual functions of the vtable at address `vtable_rva`: the
    /// slots before the first that is zero or not the address of executable
    /// code.
    pub fn get_vtable_vfunc_count_by_rva(&self, binary_name: &str, vtable_rva: u64) -> (r: Result<usize, S2Error>)
        requires
            self.wf(),
        ensures
            match self.spec_vfunc_end(binary_name@, vtable_rva, 0) {
                Err(e) => r == Err::<usize, S2Error>(e),
                Ok(end) => r == Ok::<usize, S2Error>((end / 8) as usize),
            },
    {
        let mut offset: u64 = 0;
        loop
            invariant
                self.wf(),
                self.spec_vfunc_end(binary_name@, vtable_rva, 0) == self.spec_vfunc_end(binary_name@, vtable_rva, offset),
            ensures
                self.spec_vfunc_end(binary_name@, vtable_rva, 0) == Ok::<u64, S2Error>(offset),
            decreases u64::MAX - offset,
        {
            let slot = self.read_by_rva(binary_name, vtable_rva.wrapping_add(offset), 8)?;
            let v = read_u64_le(slot, 0);
            if v == 0 {
                break;
            }
            if !self.is_valid_executable_rva(binary_name, v)? {
                break;
            }
            if offset > u64::MAX - 8 {
                return Err(S2Error::ReadOutOfBounds);
            }
            offset = offset + 8;
        }
        Ok((offset / 8) as usize)
    }

    /// Number of virtual functions of the vtable of class `vtable_name`.
    pub fn get_vtable_vfunc_count(&self, binary_name: &str, vtable_name: &str) -> (r: Result<usize, S2Error>)
        requires
            self.wf(),
        ensures
            match self.spec_vtable_mangled(binary_name@, spec_decorate_name(self.os_view(), vtable_name@)) {
                Err(e) => r == Err::<usize, S2Error>(e),
                Ok(vt) => match self.spec_vfunc_end(binary_name@, vt, 0) {
                    Err(e) => r == Err::<usize, S2Error>(e),
                    Ok(end) => r == Ok::<usize, S2Error>((end / 8) as usize),
                },
            },
    {
        let vt = self.find_vtable_rva(binary_name, vtable_name)?;
        self.get_vtable_vfunc_count_by_rva(binary_name, vt)
    }

    /// What reading slot `index` of the vtable at `vt` gives: the
    /// little-endian address stored there.
    pub open spec fn spec_slot(&self, bin: Seq<char>, vt: u64, index: usize) -> Result<u64, S2Error> {
        match self.spec_read_rva(bin, vt.wrapping_add((index as u64).wrapping_mul(8)), 8) {
            Err(e) => Err(e),
            Ok(b) => Ok(le_u64_at(b, 0) as u64),
        }
    }

    pub(crate) fn read_slot(&self, binary_name: &str, vt: u64, index: usize) -> (r: Result<u64, S2Error>)
        requires
            self.wf(),
        ensures
            r == self.spec_slot(binary_name@, vt, index),
    {
        let slot = self.read_by_rva(binary_name, vt.wrapping_add((index as u64).wrapping_mul(8)), 8)?;
        Ok(read_u64_le(slot, 0))
    }

    /// Address stored in slot `vfunc_index` of the vtable of class `vtb_name`.
    pub fn find_vfunc_by_vtbname_rva(&self, binary_name: &str, vtb_name: &str, vfunc_index: usize) -> (r: Result<u64, S2Error>)
        requires
            self.wf(),
        ensures
            match self.spec_vtable_mangled(binary_name@, spec_decorate_name(self.os_view(), vtb_name@)) {
                Err(e) => r == Err::<u64, S2Error>(e),
                Ok(vt) => r == self.spec_slot(binary_name@, vt, vfunc_index),
            },
    {
        let vt = self.find_vtable_rva(binary_name, vtb_name)?;
        self.read_slot(binary_name, vt, vfunc_index)
    }

    /// `find_vfunc_by_vtbname_rva`, as a process address.
    pub fn find_vfunc_by_vtbname(&self, binary_name: &str, vtb_name: &str, vfunc_index: usize) -> (r: Result<u64, S2Error>)
        requires
            self.wf(),
        ensures
            match self.spec_vtable_mangled(binary_name@, spec_decorate_name(self.os_view(), vtb_name@)) {
                Err(e) => r == Err::<u64, S2Error>(e),
                Ok(vt) => match self.spec_slot(binary_name@, vt, vfunc_index) {
                    Err(e) => r == Err::<u64, S2Error>(e),
                    Ok(f) => r == self.spec_rva_to_mem(binary_name@, f),
                },
            },
    {
        let f = self.find_vfunc_by_vtbname_rva(binary_name, vtb_name, vfunc_index)?;
        self.rva_to_mem_address(binary_name, f)
    }

    /// Address stored in slot `vfunc_index` of the vtable at process address
    /// `vtb_ptr`, in the loaded binary whose module holds it.
    pub fn find_vfunc_by_vtbptr_rva(&self, vtb_ptr: u64, vfunc_index: usize) -> (r: Result<u64, S2Error>)
        requires
            self.wf(),
        ensures
            match self.spec_binary_name_by_ptr(vtb_ptr) {
                Err(e) => r == Err::<u64, S2Error>(e),
                Ok(bin) => match self.spec_mem_to_rva(bin, vtb_ptr) {
                    Err(e) => r == Err::<u64, S2Error>(e),
                    Ok(vt) => r == self.spec_slot(bin, vt, vfunc_index),
                },
            },
    {
        let bin = self.get_binary_name_by_ptr(vtb_ptr)?;
        let vt = self.mem_address_to_rva(bin.as_str(), vtb_ptr)?;
        self.read_slot(bin.as_str(), vt, vfunc_index)
    }

    /// `find_vfunc_by_vtbptr_rva`, as a process address.
    pub fn find_vfunc_by_vtbptr(&self, vtb_ptr: u64, vfunc_index: usize) -> (r: Result<u64, S2Error>)
        requires
            self.wf(),
        ensures
            match self.spec_binary_name_by_ptr(vtb_ptr) {
                Err(e) => r == Err::<u64, S2Error>(e),
                Ok(bin) => match self.spec_mem_to_rva(bin, vtb_ptr) {
                    Err(e) => r == Err::<u64, S2Error>(e),
                    Ok(vt) => match self.spec_slot(bin, vt, vfunc_index) {
                        Err(e) => r == Err::<u64, S2Error>(e),
                        Ok(f) => r == self.spec_rva_to_mem(bin, f),
                    },
                },
            },
    {
        let bin = self.get_binary_name_by_ptr(vtb_ptr)?;
        let vt = self.mem_address_to_rva(bin.as_str(), vtb_ptr)?;
        let f = self.read_slot(bin.as_str(), vt, vfunc_index)?;
        self.rva_to_mem_address(bin.as_str(), f)
    }
}

} // verus!
