//! The library's error type.
use vstd::prelude::*;

verus! {

/// Why an operation of the library failed.
#[derive(Debug, Clone, Copy, PartialEq, Eq, Structural)]
pub enum S2Error {
    /// A byte pattern or string does not occur where it was searched.
    PatternNotFound,
    /// The `object` crate could not parse the binary.
    ObjectParse,
    /// No section's file range holds the file offset.
    OffsetNotMapped,
    /// No section with file data holds the virtual address.
    AddressNotMapped,
    /// The OS name is neither Windows nor Linux.
    UnsupportedOs,
    /// The binary is not loaded.
    BinaryNotFound,
    /// No module of the process has the library's name.
    ModuleNotLoaded,
    /// No module of the process holds the pointer.
    ModuleNotFound,
    /// The binary is neither PE nor ELF.
    UnsupportedFormat,
    /// The binary has no section of that name.
    SectionNotFound,
    /// The section occupies no bytes of the file.
    SectionHasNoFileData,
    /// The bytes asked for run past the end of the binary.
    ReadOutOfBounds,
    /// The binary has no export of that name.
    ExportNotFound,
    /// The binary has no dynamic symbol of that name.
    SymbolNotFound,
    /// No zero byte ends the string before the end of the binary.
    UnterminatedString,
    /// No vtable of that name was found.
    VtableNotFound,
    /// No function start was found.
    FunctionNotFound,
    /// No virtual function was found.
    VfuncNotFound,
    /// No instruction refers to the string.
    StringReferenceNotFound,
    /// More than one instruction refers to the string.
    MultipleStringReferences,
    /// The vtables of the binary have not been dumped.
    VtablesNotDumped,
    /// No virtual function of the vtable has the state-changed shape.
    NetworkVarNotFound,
    /// The bytes at the address do not decode to an instruction.
    InvalidInstruction,
    /// The instruction refers to no address.
    NoXrefInInstruction,
    /// An instruction runs past the end of the binary.
    InstructionOutOfRange,
    /// The address lies outside the binary.
    InvalidAddress,
    /// The signature grew past its maximum length.
    SignatureTooLong,
    /// No prefix of the function is a unique signature.
    SignatureNotFound,
    /// Only 64-bit binaries are supported.
    Not64Bit,
    /// An instruction could not be encoded.
    EncodeFailed,
}

} // verus!
