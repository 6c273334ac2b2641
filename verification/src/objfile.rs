//! What the library reads of an object file (PE or ELF) through the `object`
//! crate, as plain values: the file kind, the section table, exports and
//! dynamic symbols.
use vstd::prelude::*;

use crate::error::S2Error;
use object::{Object, ObjectSection, ObjectSymbol};
use object::read::pe::ImageOptionalHeader;

verus! {

/// Format-specific section flags, as `object::SectionFlags` carries them.
#[derive(Debug, Clone, Copy, PartialEq, Eq, Structural)]
pub enum SectionFlagsModel {
    Unspecified,
    Elf { sh_flags: u64 },
    MachO { flags: u32 },
    Coff { characteristics: u32 },
    Xcoff { s_flags: u32 },
}

/// The section kinds that the library tells apart.
#[derive(Debug, Clone, Copy, PartialEq, Eq, Structural)]
pub enum SectionKindModel {
    Text,
    UninitializedData,
    UninitializedTls,
    Other,
}

/// The kind of object file, with a PE file's preferred image base; for the
/// other formats, whether the file is 64-bit.
#[derive(Debug, Clone, Copy, PartialEq, Eq, Structural)]
pub enum FileKindModel {
    Pe32 { image_base: u64 },
    Pe64 { image_base: u64 },
    Elf32,
    Elf64,
    Other { is_64: bool },
}

/// One entry of an object file's section table.
///
/// `address` is the section's virtual address as `object` reports it (for a
/// PE file it includes the image base); `file_range` is its (offset, size) in
/// the file, `None` when it occupies no bytes of the file. The section's data
/// are the file bytes in `file_range`.
#[derive(Debug, Clone)]
pub struct SectionRecord {
    pub index: usize,
    pub address: u64,
    pub size: u64,
    pub file_range: Option<(u64, u64)>,
    pub name: Option<String>,
    pub name_bytes: Option<Vec<u8>>,
    pub kind: SectionKindModel,
    pub flags: SectionFlagsModel,
}

/// An exported symbol: its name bytes and address.
#[derive(Debug, Clone)]
pub struct ExportRecord {
    pub name: Vec<u8>,
    pub address: u64,
}

/// A dynamic symbol: its name, when it is valid UTF-8, and its address.
#[derive(Debug, Clone)]
pub struct SymbolRecord {
    pub name: Option<String>,
    pub address: u64,
}

/// What `object::File::parse` reads as the file kind of `data`.
pub uninterp spec fn object_file_kind(data: Seq<u8>) -> Option<FileKindModel>;

/// The section table that `object` reads from `data`, in `sections()` order.
pub uninterp spec fn object_section_table(data: Seq<u8>) -> Option<Seq<SectionRecord>>;

/// The file range of the section that `section_by_name` finds in `data`.
pub uninterp spec fn object_named_section_range(data: Seq<u8>, name: Seq<char>) -> Option<Option<Option<(u64, u64)>>>;

/// The exports that `object` reads from `data`.
pub uninterp spec fn object_export_table(data: Seq<u8>) -> Option<Seq<ExportRecord>>;

/// The dynamic symbols that `object` reads from `data`.
pub uninterp spec fn object_dynamic_symbol_table(data: Seq<u8>) -> Option<Seq<SymbolRecord>>;

/// `object::File::parse`, then the file variant; for PE files the image base
/// of the optional header.
#[verifier::external_body]
pub(crate) fn read_file_kind(data: &[u8]) -> (r: Result<FileKindModel, S2Error>)
    ensures
        match r {
            Ok(k) => object_file_kind(data@) == Some(k),
            Err(e) => object_file_kind(data@) is None && e == S2Error::ObjectParse,
        },
{
    match object::File::parse(data).map_err(|_| S2Error::ObjectParse)? {
        object::File::Pe32(pe) => Ok(FileKindModel::Pe32 { image_base: pe.nt_headers().optional_header.image_base() as u64 }),
        object::File::Pe64(pe) => Ok(FileKindModel::Pe64 { image_base: pe.nt_headers().optional_header.image_base() }),
        object::File::Elf32(_) => Ok(FileKindModel::Elf32),
        object::File::Elf64(_) => Ok(FileKindModel::Elf64),
        other => Ok(FileKindModel::Other { is_64: other.is_64() }),
    }
}

/// The parts of a section record other than its kind and flags.
#[derive(Debug, Clone)]
pub struct SectionCore {
    pub index: usize,
    pub address: u64,
    pub size: u64,
    pub file_range: Option<(u64, u64)>,
    pub name: Option<String>,
    pub name_bytes: Option<Vec<u8>>,
}

pub open spec fn core_of(r: SectionRecord) -> SectionCore {
    SectionCore {
        index: r.index,
        address: r.address,
        size: r.size,
        file_range: r.file_range,
        name: r.name,
        name_bytes: r.name_bytes,
    }
}

/// `object::File::parse`, then `sections()`: index, address, size, file
/// range and name of each section.
#[verifier::external_body]
fn read_section_cores(data: &[u8]) -> (r: Result<Vec<SectionCore>, S2Error>)
    ensures
        match r {
            Ok(v) => object_section_table(data@) matches Some(t) && v@ == t.map_values(|x: SectionRecord| core_of(x)),
            Err(e) => object_section_table(data@) is None && e == S2Error::ObjectParse,
        },
{
    let file = object::File::parse(data).map_err(|_| S2Error::ObjectParse)?;
    Ok(file.sections().map(|s| SectionCore {
        index: s.index().0, address: s.address(), size: s.size(), file_range: s.file_range(),
        name: s.name().ok().map(|n| n.to_string()), name_bytes: s.name_bytes().ok().map(|n| n.to_vec()),
    }).collect())
}

/// `object::File::parse`, then the `kind()` of each section of `sections()`.
#[verifier::external_body]
fn read_section_kinds(data: &[u8]) -> (r: Result<Vec<SectionKindModel>, S2Error>)
    ensures
        match r {
            Ok(v) => object_section_table(data@) matches Some(t) && v@ == t.map_values(|x: SectionRecord| x.kind),
            Err(e) => object_section_table(data@) is None && e == S2Error::ObjectParse,
        },
{
    let file = object::File::parse(data).map_err(|_| S2Error::ObjectParse)?;
    Ok(file.sections().map(|s| match s.kind() {
        object::SectionKind::Text => SectionKindModel::Text,
        object::SectionKind::UninitializedData => SectionKindModel::UninitializedData,
        object::SectionKind::UninitializedTls => SectionKindModel::UninitializedTls,
        _ => SectionKindModel::Other,
    }).collect())
}

/// `object::File::parse`, then the `flags()` of each section of `sections()`.
#[verifier::external_body]
fn read_section_flags(data: &[u8]) -> (r: Result<Vec<SectionFlagsModel>, S2Error>)
    ensures
        match r {
            Ok(v) => object_section_table(data@) matches Some(t) && v@ == t.map_values(|x: SectionRecord| x.flags),
            Err(e) => object_section_table(data@) is None && e == S2Error::ObjectParse,
        },
{
    let file = object::File::parse(data).map_err(|_| S2Error::ObjectParse)?;
    Ok(file.sections().map(|s| match s.flags() {
        object::SectionFlags::Elf { sh_flags } => SectionFlagsModel::Elf { sh_flags },
        object::SectionFlags::MachO { flags } => SectionFlagsModel::MachO { flags },
        object::SectionFlags::Coff { characteristics } => SectionFlagsModel::Coff { characteristics },
        object::SectionFlags::Xcoff { s_flags } => SectionFlagsModel::Xcoff { s_flags },
        _ => SectionFlagsModel::Unspecified,
    }).collect())
}

/// The section table of `data`, in the order `object` lists the sections.
pub fn read_section_table(data: &[u8]) -> (r: Result<Vec<SectionRecord>, S2Error>)
    ensures
        match r {
            Ok(v) => object_section_table(data@) == Some(v@),
            Err(e) => object_section_table(data@) is None && e == S2Error::ObjectParse,
        },
{
    let mut cores = read_section_cores(data)?;
    let kinds = read_section_kinds(data)?;
    let flags = read_section_flags(data)?;
    let ghost t = object_section_table(data@).unwrap();
    let n = cores.len();
    let mut out: Vec<SectionRecord> = Vec::new();
    let mut i: usize = 0;
    while i < n
        invariant
            n == t.len(),
            cores@ == t.map_values(|x: SectionRecord| core_of(x)).skip(i as int),
            kinds@ == t.map_values(|x: SectionRecord| x.kind),
            flags@ == t.map_values(|x: SectionRecord| x.flags),
            i <= n,
            out@ == t.take(i as int),
        decreases n - i,
    {
        let c = cores.remove(0);
        let rec = SectionRecord {
            index: c.index,
            address: c.address,
            size: c.size,
            file_range: c.file_range,
            name: c.name,
            name_bytes: c.name_bytes,
            kind: kinds[i],
            flags: flags[i],
        };
        proof {
            assert(c == core_of(t[i as int]));
            assert(rec == t[i as int]);
            assert(t.take(i + 1) == t.take(i as int).push(t[i as int]));
            assert(cores@ == t.map_values(|x: SectionRecord| core_of(x)).skip(i + 1));
        }
        out.push(rec);
        i = i + 1;
    }
    proof {
        assert(t.take(i as int) == t);
    }
    Ok(out)
}

/// `object::File::parse`, then `section_by_name(name)` and that section's
/// `file_range()`.
#[verifier::external_body]
pub(crate) fn read_named_section_range(data: &[u8], name: &str) -> (r: Result<Option<Option<(u64, u64)>>, S2Error>)
    ensures
        match r {
            Ok(v) => object_named_section_range(data@, name@) == Some(v),
            Err(e) => object_named_section_range(data@, name@) is None && e == S2Error::ObjectParse,
        },
{
    let file = object::File::parse(data).map_err(|_| S2Error::ObjectParse)?;
    Ok(file.section_by_name(name).map(|s| s.file_range()))
}

/// `object::File::parse`, then `exports()`.
#[verifier::external_body]
pub(crate) fn read_export_table(data: &[u8]) -> (r: Result<Vec<ExportRecord>, S2Error>)
    ensures
        match r {
            Ok(v) => object_export_table(data@) == Some(v@),
            Err(e) => object_export_table(data@) is None && e == S2Error::ObjectParse,
        },
{
    let file = object::File::parse(data).map_err(|_| S2Error::ObjectParse)?;
    let exports = file.exports().map_err(|_| S2Error::ObjectParse)?;
    Ok(exports.iter().map(|e| ExportRecord { name: e.name().to_vec(), address: e.address() }).collect())
}

/// `object::File::parse`, then `dynamic_symbols()`.
#[verifier::external_body]
pub(crate) fn read_dynamic_symbol_table(data: &[u8]) -> (r: Result<Vec<SymbolRecord>, S2Error>)
    ensures
        match r {
            Ok(v) => object_dynamic_symbol_table(data@) == Some(v@),
            Err(e) => object_dynamic_symbol_table(data@) is None && e == S2Error::ObjectParse,
        },
{
    let file = object::File::parse(data).map_err(|_| S2Error::ObjectParse)?;
    Ok(file.dynamic_symbols().map(|s| SymbolRecord { name: s.name().ok().map(|n| n.to_string()), address: s.address() }).collect())
}


/// The bytes that `data()` returns for the section at `position` in
/// `sections()` order; `None` when the file does not parse, has no such
/// section, or `data()` fails.
pub uninterp spec fn object_section_data(data: Seq<u8>, position: usize) -> Option<Seq<u8>>;

/// `object::File::parse`, then `data()` of the section at `position` of
/// `sections()`, copied.
#[verifier::external_body]
pub(crate) fn read_section_data(data: &[u8], position: usize) -> (r: Option<Vec<u8>>)
    ensures
        match r {
            Some(v) => object_section_data(data@, position) == Some(v@),
            None => object_section_data(data@, position) is None,
        },
{
    let file = object::File::parse(data).ok()?;
    let section = file.sections().nth(position)?;
    section.data().ok().map(|d| d.to_vec())
}

} // verus!
