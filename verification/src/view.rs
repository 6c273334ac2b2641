//! A read-only view of a binary's image: its sections as they lie at their
//! virtual addresses, with little-endian reads, C strings and RVA
//! resolution against the image base.
use vstd::prelude::*;

use crate::bytes::{le_u32_at, le_u64_at, read_int32, read_u64_le};
use crate::error::S2Error;
use crate::memory::{descriptor_in, descriptors_in, lemma_module_sections_in, module_sections_from_slice, spec_module_sections, MemorySectionDescriptor};
use crate::objfile::{object_section_data, read_section_data, read_section_table, object_section_table};
use crate::sections::{is_executable, spec_is_executable};
use crate::text::{string_from_bytes_lossy, utf8_lossy};
use vstd::slice::{slice_subrange, slice_to_vec};

verus! {

/// A section of an image: its name, its virtual address, its bytes, and
/// whether it holds code.
#[derive(Debug, Clone)]
pub struct ViewSection {
    pub name: Option<String>,
    pub address: u64,
    pub data: Vec<u8>,
    pub executable: bool,
}

/// An image: the base that RVAs are relative to, and its sections.
#[derive(Debug, Clone)]
pub struct ImageView {
    pub image_base: u64,
    pub sections: Vec<ViewSection>,
}

/// The first section, from `i` on, whose bytes span `addr`, and the offset
/// of `addr` in it.
pub open spec fn locate_from(s: Seq<ViewSection>, addr: u64, i: int) -> Option<(int, int)>
    decreases s.len() - i,
{
    if i < 0 || i >= s.len() {
        None
    } else if s[i].address <= addr && addr - s[i].address < s[i].data@.len() {
        Some((i, addr - s[i].address))
    } else {
        locate_from(s, addr, i + 1)
    }
}

/// The section and offset of `addr` in the image.
pub open spec fn spec_locate(v: ImageView, addr: u64) -> Option<(int, int)> {
    locate_from(v.sections@, addr, 0)
}

/// Some section's bytes span `addr`.
pub open spec fn spec_contains(v: ImageView, addr: u64) -> bool {
    spec_locate(v, addr) is Some
}

/// The `u32` at `addr`: its four bytes lie in the section of `addr`.
pub open spec fn spec_read_u32(v: ImageView, addr: u64) -> Option<u32> {
    match spec_locate(v, addr) {
        Some((i, off)) => if off + 4 <= v.sections@[i].data@.len() {
            Some(le_u32_at(v.sections@[i].data@, off) as u32)
        } else {
            None
        },
        None => None,
    }
}

/// The `u64` at `addr`: its eight bytes lie in the section of `addr`.
pub open spec fn spec_read_u64(v: ImageView, addr: u64) -> Option<u64> {
    match spec_locate(v, addr) {
        Some((i, off)) => if off + 8 <= v.sections@[i].data@.len() {
            Some(le_u64_at(v.sections@[i].data@, off) as u64)
        } else {
            None
        },
        None => None,
    }
}

/// The address of `rva`: the image base plus `rva`, when that fits.
pub open spec fn spec_follow_rva(v: ImageView, rva: u32) -> Option<u64> {
    if v.image_base + rva <= u64::MAX {
        Some((v.image_base + rva) as u64)
    } else {
        None
    }
}

/// `addr` lies in a section that holds code.
pub open spec fn spec_is_exec_addr(v: ImageView, addr: u64) -> bool {
    match spec_locate(v, addr) {
        Some((i, _)) => v.sections@[i].executable,
        None => false,
    }
}

/// Index of the first zero byte of `d` at or after `i`.
pub open spec fn nul_from(d: Seq<u8>, i: int) -> Option<int>
    decreases d.len() - i,
{
    if i < 0 || i >= d.len() {
        None
    } else if d[i] == 0 {
        Some(i)
    } else {
        nul_from(d, i + 1)
    }
}

/// The zero-terminated string at `addr`, within its section, as lossy UTF-8.
pub open spec fn spec_read_c_string(v: ImageView, addr: u64) -> Option<Seq<char>> {
    match spec_locate(v, addr) {
        Some((i, off)) => match nul_from(v.sections@[i].data@, off) {
            Some(e) => Some(utf8_lossy(v.sections@[i].data@.subrange(off, e))),
            None => None,
        },
        None => None,
    }
}

impl ImageView {
    /// The section and offset of `addr`.
    pub fn locate(&self, addr: u64) -> (r: Option<(usize, u64)>)
        ensures
            match r {
                Some((i, off)) => spec_locate(*self, addr) == Some((i as int, off as int)) && i < self.sections@.len()
                    && off < self.sections@[i as int].data@.len(),
                None => spec_locate(*self, addr) is None,
            },
    {
        let mut i: usize = 0;
        while i < self.sections.len()
            invariant
                i <= self.sections@.len(),
                spec_locate(*self, addr) == locate_from(self.sections@, addr, i as int),
            decreases self.sections@.len() - i,
        {
            let s = &self.sections[i];
            if s.address <= addr && addr - s.address < s.data.len() as u64 {
                return Some((i, addr - s.address));
            }
            i = i + 1;
        }
        None
    }

    /// Whether some section spans `addr`.
    pub fn contains(&self, addr: u64) -> (r: bool)
        ensures
            r == spec_contains(*self, addr),
    {
        self.locate(addr).is_some()
    }

    /// The `u32` at `addr`.
    pub fn read_u32(&self, addr: u64) -> (r: Option<u32>)
        ensures
            r == spec_read_u32(*self, addr),
    {
        let (i, off) = self.locate(addr)?;
        let d = &self.sections[i].data;
        if d.len() as u64 - off < 4 {
            return None;
        }
        Some(read_int32(d.as_slice(), off))
    }

    /// The `u64` at `addr`.
    pub fn read_u64(&self, addr: u64) -> (r: Option<u64>)
        ensures
            r == spec_read_u64(*self, addr),
    {
        let (i, off) = self.locate(addr)?;
        let d = &self.sections[i].data;
        if d.len() as u64 - off < 8 {
            return None;
        }
        Some(read_u64_le(d.as_slice(), off))
    }

    /// The address of `rva`.
    pub fn follow_rva(&self, rva: u32) -> (r: Option<u64>)
        ensures
            r == spec_follow_rva(*self, rva),
    {
        self.image_base.checked_add(rva as u64)
    }

    /// Whether `addr` lies in a section that holds code.
    pub fn is_executable(&self, addr: u64) -> (r: bool)
        ensures
            r == spec_is_exec_addr(*self, addr),
    {
        match self.locate(addr) {
            Some((i, _)) => self.sections[i].executable,
            None => false,
        }
    }

    /// The zero-terminated string at `addr`.
    pub fn read_c_string(&self, addr: u64) -> (r: Option<String>)
        ensures
            match spec_read_c_string(*self, addr) {
                Some(s) => r matches Some(t) && t@ == s,
                None => r is None,
            },
    {
        let (i, off) = self.locate(addr)?;
        let d = self.sections[i].data.as_slice();
        assert(d@ == self.sections@[i as int].data@);
        let dl = d.len();
        assert(off < dl);
        let mut j: usize = off as usize;
        while j < d.len() && d[j] != 0
            invariant
                off <= j <= d@.len(),
                nul_from(d@, off as int) == nul_from(d@, j as int),
            decreases d@.len() - j,
        {
            j = j + 1;
        }
        if j == d.len() {
            return None;
        }
        Some(string_from_bytes_lossy(vstd::slice::slice_subrange(d, off as usize, j)))
    }
}

/// The view of a file's sections: each section of its table, at its
/// address, with the bytes its `data()` gives (none when that fails), and
/// executable when its flags say so.
pub open spec fn file_view_sections(data: Seq<u8>, t: Seq<crate::objfile::SectionRecord>) -> Seq<(u64, Seq<u8>, bool)> {
    Seq::new(t.len(), |i: int| (
        t[i].address,
        match object_section_data(data, i as usize) {
            Some(b) => b,
            None => Seq::empty(),
        },
        spec_is_executable(t[i].flags),
    ))
}

/// The view holds exactly those sections, named as in the table.
pub open spec fn is_file_view(v: ImageView, data: Seq<u8>, image_base: u64) -> bool {
    match object_section_table(data) {
        Some(t) => v.image_base == image_base && v.sections@.len() == t.len()
            && forall|i: int| 0 <= i < t.len() ==> {
                &&& (#[trigger] v.sections@[i]).address == t[i].address
                &&& v.sections@[i].data@ == file_view_sections(data, t)[i].1
                &&& v.sections@[i].executable == spec_is_executable(t[i].flags)
                &&& v.sections@[i].name == t[i].name
            },
        None => false,
    }
}

/// The view of the object file `data`, with RVAs relative to `image_base`.
pub fn file_view(data: &[u8], image_base: u64) -> (r: Result<ImageView, S2Error>)
    ensures
        match r {
            Ok(v) => is_file_view(v, data@, image_base),
            Err(e) => object_section_table(data@) is None && e == S2Error::ObjectParse,
        },
{
    let table = read_section_table(data)?;
    let mut sections: Vec<ViewSection> = Vec::new();
    let mut i: usize = 0;
    while i < table.len()
        invariant
            object_section_table(data@) == Some(table@),
            i <= table@.len(),
            sections@.len() == i,
            forall|k: int| 0 <= k < i ==> {
                &&& (#[trigger] sections@[k]).address == table@[k].address
                &&& sections@[k].data@ == file_view_sections(data@, table@)[k].1
                &&& sections@[k].executable == spec_is_executable(table@[k].flags)
                &&& sections@[k].name == table@[k].name
            },
        decreases table@.len() - i,
    {
        let bytes = match read_section_data(data, i) {
            Some(b) => b,
            None => Vec::new(),
        };
        let s = ViewSection {
            name: table[i].name.clone(),
            address: table[i].address,
            data: bytes,
            executable: is_executable(table[i].flags),
        };
        sections.push(s);
        i = i + 1;
    }
    Ok(ImageView { image_base, sections })
}


/// The view holds one section for each descriptor, in order: named as it,
/// placed at `base` plus its offset, with its bytes of the image.
pub open spec fn is_module_view(v: ImageView, image: Seq<u8>, base: u64, ds: Seq<MemorySectionDescriptor>) -> bool {
    &&& v.image_base == base
    &&& v.sections@.len() == ds.len()
    &&& forall|i: int| 0 <= i < ds.len() ==> {
        &&& (#[trigger] v.sections@[i]).name == ds[i].name
        &&& v.sections@[i].address == base + ds[i].offset
        &&& v.sections@[i].data@ == image.subrange(ds[i].offset as int, ds[i].offset + ds[i].size)
        &&& v.sections@[i].executable == ds[i].executable
    }
}

/// The view of a module image mapped at `base` in the process: the
/// sections that `module_sections_from_slice` finds in it, each placed at
/// its address in the process with its bytes of the image.
pub fn module_image_view(image: &[u8], base: u64) -> (r: Result<ImageView, S2Error>)
    requires
        base + image@.len() <= u64::MAX,
    ensures
        image@.len() == 0 ==> (r matches Ok(v) && v.image_base == base && v.sections@.len() == 0),
        image@.len() > 0 ==> match object_section_table(image@) {
            Some(t) => r matches Ok(v) && is_module_view(v, image@, base, spec_module_sections(t, image@.len(), base)),
            None => r == Err::<ImageView, S2Error>(S2Error::ObjectParse),
        },
{
    let ds = module_sections_from_slice(image, base)?;
    let n = image.len();
    proof {
        if image@.len() > 0 {
            let t = object_section_table(image@).unwrap();
            lemma_module_sections_in(t, image@.len(), base);
        }
    }
    let mut sections: Vec<ViewSection> = Vec::new();
    let mut i: usize = 0;
    while i < ds.len()
        invariant
            base + image@.len() <= u64::MAX,
            n == image@.len(),
            descriptors_in(ds@, image@.len()),
            i <= ds@.len(),
            is_module_view(ImageView { image_base: base, sections }, image@, base, ds@.take(i as int)),
        decreases ds@.len() - i,
    {
        let d = &ds[i];
        assert(descriptor_in(ds@[i as int], image@.len()));
        let bytes = slice_to_vec(slice_subrange(image, d.offset, d.offset + d.size));
        let sec = ViewSection {
            name: d.name.clone(),
            address: base + d.offset as u64,
            data: bytes,
            executable: d.executable,
        };
        sections.push(sec);
        i = i + 1;
        proof {
            assert forall|k: int| 0 <= k < i implies ds@.take(i as int)[k] == ds@[k] by {}
        }
    }
    proof {
        assert(ds@.take(ds@.len() as int) == ds@);
    }
    Ok(ImageView { image_base: base, sections })
}

} // verus!
