//! Section flags and the mapping between file offsets and virtual addresses
//! through a section table.
//!
//! Address sums wrap around at 2^64, as the release build of the same
//! arithmetic does.
use vstd::prelude::*;

use crate::error::S2Error;
use crate::objfile::{SectionFlagsModel, SectionRecord};

verus! {

/// The section may be read: COFF `IMAGE_SCN_MEM_READ`, ELF `SHF_ALLOC`;
/// Mach-O and XCOFF sections always, sections without flags never.
pub open spec fn spec_is_readable(flags: SectionFlagsModel) -> bool {
    match flags {
        SectionFlagsModel::Coff { characteristics } => characteristics & 0x40000000 != 0,
        SectionFlagsModel::Elf { sh_flags } => sh_flags & 0x2 != 0,
        SectionFlagsModel::MachO { .. } => true,
        SectionFlagsModel::Xcoff { .. } => true,
        SectionFlagsModel::Unspecified => false,
    }
}

/// The section may be written: COFF `IMAGE_SCN_MEM_WRITE`, ELF `SHF_WRITE`.
pub open spec fn spec_is_writable(flags: SectionFlagsModel) -> bool {
    match flags {
        SectionFlagsModel::Coff { characteristics } => characteristics & 0x80000000 != 0,
        SectionFlagsModel::Elf { sh_flags } => sh_flags & 0x1 != 0,
        _ => false,
    }
}

/// The section holds code: COFF `IMAGE_SCN_MEM_EXECUTE`, ELF `SHF_EXECINSTR`.
pub open spec fn spec_is_executable(flags: SectionFlagsModel) -> bool {
    match flags {
        SectionFlagsModel::Coff { characteristics } => characteristics & 0x20000000 != 0,
        SectionFlagsModel::Elf { sh_flags } => sh_flags & 0x4 != 0,
        _ => false,
    }
}

/// Whether a section with these flags may be read.
pub fn is_readable(flags: SectionFlagsModel) -> (r: bool)
    ensures
        r == spec_is_readable(flags),
{
    match flags {
        SectionFlagsModel::Coff { characteristics } => (characteristics & 0x40000000) != 0,
        SectionFlagsModel::Elf { sh_flags } => (sh_flags & 0x2) != 0,
        SectionFlagsModel::MachO { .. } => true,
        SectionFlagsModel::Xcoff { .. } => true,
        SectionFlagsModel::Unspecified => false,
    }
}

/// Whether a section with these flags may be written.
pub fn is_writable(flags: SectionFlagsModel) -> (r: bool)
    ensures
        r == spec_is_writable(flags),
{
    match flags {
        SectionFlagsModel::Coff { characteristics } => (characteristics & 0x80000000) != 0,
        SectionFlagsModel::Elf { sh_flags } => (sh_flags & 0x1) != 0,
        _ => false,
    }
}

/// Whether a section with these flags holds code.
pub fn is_executable(flags: SectionFlagsModel) -> (r: bool)
    ensures
        r == spec_is_executable(flags),
{
    match flags {
        SectionFlagsModel::Coff { characteristics } => (characteristics & 0x20000000) != 0,
        SectionFlagsModel::Elf { sh_flags } => (sh_flags & 0x4) != 0,
        _ => false,
    }
}

/// The file offset lies in the section's file range.
pub open spec fn file_range_contains(s: SectionRecord, off: u64) -> bool {
    match s.file_range {
        Some((start, size)) => start <= off && off < start.wrapping_add(size),
        None => false,
    }
}

/// The virtual address lies in the section's address range.
pub open spec fn address_range_contains(s: SectionRecord, rva: u64) -> bool {
    s.address <= rva && rva < s.address.wrapping_add(s.size)
}

/// Virtual address of a file offset: through the first section whose file
/// range holds it.
pub open spec fn spec_file_offset_to_rva(secs: Seq<SectionRecord>, off: u64) -> Option<u64>
    decreases secs.len(),
{
    if secs.len() == 0 {
        None
    } else if file_range_contains(secs[0], off) {
        Some(secs[0].address.wrapping_add((off - secs[0].file_range.unwrap().0) as u64))
    } else {
        spec_file_offset_to_rva(secs.drop_first(), off)
    }
}

/// File offset of a virtual address: through the first section whose address
/// range holds it and that has a file range.
pub open spec fn spec_rva_to_file_offset(secs: Seq<SectionRecord>, rva: u64) -> Option<u64>
    decreases secs.len(),
{
    if secs.len() == 0 {
        None
    } else if address_range_contains(secs[0], rva) && secs[0].file_range is Some {
        Some(secs[0].file_range.unwrap().0.wrapping_add((rva - secs[0].address) as u64))
    } else {
        spec_rva_to_file_offset(secs.drop_first(), rva)
    }
}

/// Whether the first section whose file range holds the offset is executable.
pub open spec fn spec_file_offset_executable(secs: Seq<SectionRecord>, off: u64) -> Option<bool>
    decreases secs.len(),
{
    if secs.len() == 0 {
        None
    } else if file_range_contains(secs[0], off) {
        Some(spec_is_executable(secs[0].flags))
    } else {
        spec_file_offset_executable(secs.drop_first(), off)
    }
}

proof fn lemma_skip_step<T>(s: Seq<T>, i: int)
    requires
        0 <= i < s.len(),
    ensures
        s.skip(i).len() > 0,
        s.skip(i)[0] == s[i],
        s.skip(i).drop_first() == s.skip(i + 1),
{
    assert(s.skip(i).drop_first() =~= s.skip(i + 1));
}

fn range_holds(s: &SectionRecord, off: u64) -> (r: bool)
    ensures
        r == file_range_contains(*s, off),
{
    match s.file_range {
        Some((start, size)) => start <= off && off < start.wrapping_add(size),
        None => false,
    }
}

/// Virtual address of a file offset; an error when no section's file range
/// holds it.
pub fn file_offset_to_rva(secs: &Vec<SectionRecord>, off: u64) -> (r: Result<u64, S2Error>)
    ensures
        match spec_file_offset_to_rva(secs@, off) {
            Some(v) => r == Ok::<u64, S2Error>(v),
            None => r == Err::<u64, S2Error>(S2Error::OffsetNotMapped),
        },
{
    let mut i: usize = 0;
    proof {
        assert(secs@.skip(0) == secs@);
    }
    while i < secs.len()
        invariant
            i <= secs@.len(),
            spec_file_offset_to_rva(secs@, off) == spec_file_offset_to_rva(secs@.skip(i as int), off),
        decreases secs@.len() - i,
    {
        proof {
            lemma_skip_step(secs@, i as int);
        }
        if range_holds(&secs[i], off) {
            let (start, _) = secs[i].file_range.unwrap();
            return Ok(secs[i].address.wrapping_add(off - start));
        }
        i = i + 1;
    }
    Err(S2Error::OffsetNotMapped)
}

/// File offset of a virtual address; an error when no section with a file
/// range holds it.
pub fn rva_to_file_offset(secs: &Vec<SectionRecord>, rva: u64) -> (r: Result<u64, S2Error>)
    ensures
        match spec_rva_to_file_offset(secs@, rva) {
            Some(v) => r == Ok::<u64, S2Error>(v),
            None => r == Err::<u64, S2Error>(S2Error::AddressNotMapped),
        },
{
    let mut i: usize = 0;
    proof {
        assert(secs@.skip(0) == secs@);
    }
    while i < secs.len()
        invariant
            i <= secs@.len(),
            spec_rva_to_file_offset(secs@, rva) == spec_rva_to_file_offset(secs@.skip(i as int), rva),
        decreases secs@.len() - i,
    {
        proof {
            lemma_skip_step(secs@, i as int);
        }
        let s = &secs[i];
        if s.address <= rva && rva < s.address.wrapping_add(s.size) {
            match s.file_range {
                Some((start, _)) => {
                    return Ok(start.wrapping_add(rva - s.address));
                },
                None => {},
            }
        }
        i = i + 1;
    }
    Err(S2Error::AddressNotMapped)
}

/// Whether the section whose file range holds the offset is executable; an
/// error when there is none.
pub fn is_file_offset_executable(secs: &Vec<SectionRecord>, off: u64) -> (r: Result<bool, S2Error>)
    ensures
        match spec_file_offset_executable(secs@, off) {
            Some(v) => r == Ok::<bool, S2Error>(v),
            None => r == Err::<bool, S2Error>(S2Error::OffsetNotMapped),
        },
{
    let mut i: usize = 0;
    proof {
        assert(secs@.skip(0) == secs@);
    }
    while i < secs.len()
        invariant
            i <= secs@.len(),
            spec_file_offset_executable(secs@, off) == spec_file_offset_executable(secs@.skip(i as int), off),
        decreases secs@.len() - i,
    {
        proof {
            lemma_skip_step(secs@, i as int);
        }
        if range_holds(&secs[i], off) {
            return Ok(is_executable(secs[i].flags));
        }
        i = i + 1;
    }
    Err(S2Error::OffsetNotMapped)
}

} // verus!
