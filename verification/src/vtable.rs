//! Virtual tables and the class hierarchies that RTTI records for them.
use vstd::prelude::*;

verus! {

/// A virtual table found in a binary: the demangled class name, the address
/// of the first slot, the slots' targets, the base classes and the RTTI
/// details of its ABI.
#[derive(Debug, Clone)]
pub struct VTableInfo {
    pub class_name: String,
    pub vtable_address: u64,
    pub methods: Vec<u64>,
    pub bases: Vec<BaseClassInfo>,
    pub model: VTableModel,
}

/// The ABI-specific part of a virtual table.
#[derive(Debug, Clone, Copy)]
pub enum VTableModel {
    Msvc {
        complete_object_locator: u64,
        offset: u32,
        constructor_displacement: u32,
        class_attributes: u32,
    },
    Itanium { offset_to_top: i64 },
}

/// A base class of a class.
#[derive(Debug, Clone)]
pub struct BaseClassInfo {
    pub class_name: String,
    pub details: BaseClassModel,
}

/// The ABI-specific part of a base class record. Base lists are kept flat:
/// an Itanium class lists its direct bases each followed by that base's own
/// ancestors, so a record carries no nested list.
#[derive(Debug, Clone, Copy)]
pub enum BaseClassModel {
    Msvc { attributes: u32, displacement: Pmd, num_contained_bases: u32 },
    Itanium { offset: i64, flags: u32 },
}

/// An MSVC pointer-to-member displacement.
#[derive(Debug, Clone, Copy)]
pub struct Pmd {
    pub mdisp: i32,
    pub pdisp: i32,
    pub vdisp: i32,
}

/// An MSVC complete object locator, read from the binary.
#[derive(Debug, Clone, Copy)]
pub struct CompleteObjectLocator {
    pub address: u64,
    pub offset: u32,
    pub cd_offset: u32,
    pub type_descriptor: u64,
    pub class_descriptor: u64,
}

/// An Itanium `type_info` object: the demangled name and its bases, each
/// direct base followed by that base's own ancestors (pre-order).
#[derive(Debug, Clone)]
pub struct TypeInfoData {
    pub name: String,
    pub bases: Vec<BaseClassInfo>,
}


/// A base class record as plain values: its class name and details.
pub type BaseView = (Seq<char>, BaseClassModel);

/// A vtable record as plain values: class name, address, slots, bases and
/// ABI details.
pub type VTableView = (Seq<char>, u64, Seq<u64>, Seq<BaseView>, VTableModel);

/// The plain values of a base class record.
pub open spec fn base_view(b: BaseClassInfo) -> BaseView {
    (b.class_name@, b.details)
}

/// The plain values of a list of base class records.
pub open spec fn bases_view(s: Seq<BaseClassInfo>) -> Seq<BaseView> {
    s.map_values(|b: BaseClassInfo| base_view(b))
}

/// The plain values of a vtable record.
pub open spec fn vtable_view(v: VTableInfo) -> VTableView {
    (v.class_name@, v.vtable_address, v.methods@, bases_view(v.bases@), v.model)
}

/// The plain values of a list of vtable records.
pub open spec fn vtables_view_of(s: Seq<VTableInfo>) -> Seq<VTableView> {
    s.map_values(|v: VTableInfo| vtable_view(v))
}

} // verus!
