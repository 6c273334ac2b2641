//! Making a unique IDA-style signature for a function: its instructions'
//! bytes, with displacements and nonzero immediates as wildcards, up to the
//! first prefix that occurs once in the binary.
use vstd::prelude::*;

use crate::decode::{decode_constant_offsets, decode_insn, x86_constant_offsets, x86_decode, ConstantOffsets};
use crate::error::S2Error;
use crate::objfile::{object_file_kind, read_file_kind, FileKindModel};
use crate::s2binlib::S2BinLib;
use crate::scan::ScanStep;
use crate::text::{build_ida_signature, ida_signature_text, trim_signature, trim_wildcards};
use crate::xrefs::spec_bitness;

verus! {

/// The longest signature the library builds, in bytes.
pub const MAX_SIGNATURE_LENGTH: usize = 1000;

/// The signature's bytes.
pub open spec fn sig_bytes(sig: Seq<(u8, bool)>) -> Seq<u8> {
    sig.map_values(|e: (u8, bool)| e.0)
}

/// The positions of the signature's wildcards, from `i` on, ascending.
pub open spec fn sig_wildcards(sig: Seq<(u8, bool)>, i: int) -> Seq<usize>
    decreases sig.len() - i,
{
    if i < 0 || i >= sig.len() {
        Seq::empty()
    } else if sig[i].1 {
        seq![i as usize] + sig_wildcards(sig, i + 1)
    } else {
        sig_wildcards(sig, i + 1)
    }
}

/// All bytes of `s` are zero.
pub open spec fn all_zero(s: Seq<u8>) -> bool {
    forall|k: int| 0 <= k < s.len() ==> s[k] == 0
}

/// Byte `k` of an instruction of `n` bytes at file offset `c` lies in an
/// immediate (at `off`, `size` bytes long) that is not all zeros.
pub open spec fn in_nonzero_immediate(d: Seq<u8>, c: int, n: int, off: int, size: int, k: int) -> bool {
    size != 0 && off + size <= n && !all_zero(d.subrange(c + off, c + off + size)) && off <= k < off + size
}

/// Byte `k` of that instruction is a wildcard: it lies in the displacement
/// or in a nonzero immediate.
pub open spec fn is_operand_byte(d: Seq<u8>, c: int, n: int, co: ConstantOffsets, k: int) -> bool {
    ||| (co.displacement_size > 0 && co.displacement_offset + co.displacement_size <= n
        && co.displacement_offset <= k < co.displacement_offset + co.displacement_size)
    ||| in_nonzero_immediate(d, c, n, co.immediate_offset as int, co.immediate_size as int, k)
    ||| in_nonzero_immediate(d, c, n, co.immediate_offset2 as int, co.immediate_size2 as int, k)
}

/// The signature entries of the instruction of `n` bytes at file offset `c`.
pub open spec fn insn_sig(d: Seq<u8>, c: int, n: int, co: ConstantOffsets) -> Seq<(u8, bool)> {
    Seq::new(n as nat, |k: int| (d[c + k], is_operand_byte(d, c, n, co, k)))
}

fn all_zero_range(d: &[u8], lo: usize, hi: usize) -> (r: bool)
    requires
        lo <= hi <= d@.len(),
    ensures
        r == all_zero(d@.subrange(lo as int, hi as int)),
{
    let mut i = lo;
    while i < hi
        invariant
            lo <= i <= hi <= d@.len(),
            forall|k: int| lo <= k < i ==> d@[k] == 0,
        decreases hi - i,
    {
        if d[i] != 0 {
            assert(d@.subrange(lo as int, hi as int)[i - lo] != 0);
            return false;
        }
        i = i + 1;
    }
    true
}

fn nonzero_immediate(d: &[u8], c: usize, n: usize, off: usize, size: usize) -> (r: bool)
    requires
        c + n <= d@.len(),
    ensures
        r == (size != 0 && off + size <= n && !all_zero(d@.subrange(c + off, c + off + size))),
{
    let dl = d.len();
    if size == 0 || off > n || size > n - off {
        return false;
    }
    assert(c + off + size <= dl);
    !all_zero_range(d, c + off, c + off + size)
}

/// The signature entries of the instruction of `n` bytes at file offset `c`.
fn instruction_signature(d: &[u8], c: usize, n: usize, co: &ConstantOffsets) -> (r: Vec<(u8, bool)>)
    requires
        c + n <= d@.len(),
    ensures
        r@ == insn_sig(d@, c as int, n as int, *co),
{
    let disp = co.displacement_size > 0 && co.displacement_offset <= n && co.displacement_size <= n - co.displacement_offset;
    let imm1 = nonzero_immediate(d, c, n, co.immediate_offset, co.immediate_size);
    let imm2 = nonzero_immediate(d, c, n, co.immediate_offset2, co.immediate_size2);
    let dl = d.len();
    let mut r: Vec<(u8, bool)> = Vec::new();
    let mut k: usize = 0;
    while k < n
        invariant
            c + n <= d@.len(),
            dl == d@.len(),
            k <= n,
            disp == (co.displacement_size > 0 && co.displacement_offset + co.displacement_size <= n),
            imm1 == (co.immediate_size != 0 && co.immediate_offset + co.immediate_size <= n
                && !all_zero(d@.subrange(c + co.immediate_offset, c + co.immediate_offset + co.immediate_size))),
            imm2 == (co.immediate_size2 != 0 && co.immediate_offset2 + co.immediate_size2 <= n
                && !all_zero(d@.subrange(c + co.immediate_offset2, c + co.immediate_offset2 + co.immediate_size2))),
            r@ == insn_sig(d@, c as int, n as int, *co).take(k as int),
        decreases n - k,
    {
        let wild = (disp && co.displacement_offset <= k && k - co.displacement_offset < co.displacement_size)
            || (imm1 && co.immediate_offset <= k && k - co.immediate_offset < co.immediate_size)
            || (imm2 && co.immediate_offset2 <= k && k - co.immediate_offset2 < co.immediate_size2);
        r.push((d[c + k], wild));
        proof {
            assert(r@ =~= insn_sig(d@, c as int, n as int, *co).take(k + 1));
        }
        k = k + 1;
    }
    proof {
        assert(r@ =~= insn_sig(d@, c as int, n as int, *co));
    }
    r
}

/// The signature's bytes and wildcard positions, as a pattern.
fn signature_pattern(sig: &Vec<(u8, bool)>) -> (r: (Vec<u8>, Vec<usize>))
    ensures
        r.0@ == sig_bytes(sig@),
        r.1@ == sig_wildcards(sig@, 0),
{
    let mut bytes: Vec<u8> = Vec::new();
    let mut wild: Vec<usize> = Vec::new();
    let mut i: usize = 0;
    while i < sig.len()
        invariant
            i <= sig@.len(),
            bytes@ == sig_bytes(sig@).take(i as int),
            wild@ + sig_wildcards(sig@, i as int) == sig_wildcards(sig@, 0),
        decreases sig@.len() - i,
    {
        let (b, w) = sig[i];
        bytes.push(b);
        if w {
            proof {
                assert(wild@ + sig_wildcards(sig@, i as int) =~= wild@.push(i as usize) + sig_wildcards(sig@, i + 1));
            }
            wild.push(i);
        }
        proof {
            assert(bytes@ =~= sig_bytes(sig@).take(i + 1));
        }
        i = i + 1;
    }
    proof {
        assert(bytes@ =~= sig_bytes(sig@));
        assert(wild@ + Seq::<usize>::empty() =~= wild@);
    }
    (bytes, wild)
}

impl S2BinLib {
    /// A scan for the signature in binary `bin` finds exactly one match: its
    /// first step hits and the step after that does not.
    pub open spec fn spec_sig_unique(&self, bin: Seq<char>, sig: Seq<(u8, bool)>) -> bool {
        match self.spec_scan_step(bin, sig_bytes(sig), sig_wildcards(sig, 0), 0) {
            Ok(ScanStep::Hit { next_offset, .. }) => !(self.spec_scan_step(bin, sig_bytes(sig), sig_wildcards(sig, 0), next_offset)
                matches Ok(ScanStep::Hit { .. })),
            _ => false,
        }
    }

    /// Whether a scan for the signature in binary `binary_name` counts
    /// exactly one match before it stops.
    fn is_signature_unique(&self, binary_name: &str, signature: &Vec<(u8, bool)>) -> (r: bool)
        requires
            self.wf(),
        ensures
            r == self.spec_sig_unique(binary_name@, signature@),
    {
        let (bytes, wild) = signature_pattern(signature);
        match self.pattern_scan_step(binary_name, bytes.as_slice(), wild.as_slice(), 0) {
            Ok(ScanStep::Hit { next_offset, .. }) => {
                match self.pattern_scan_step(binary_name, bytes.as_slice(), wild.as_slice(), next_offset) {
                    Ok(ScanStep::Hit { .. }) => false,
                    _ => true,
                }
            },
            _ => false,
        }
    }

    /// Growing the signature of the code at file offset `start` (address
    /// `rva`) instruction by instruction, from `pos` bytes in, with `sig`
    /// built so far: the first prefix that is unique, trimmed of trailing
    /// wildcards, as text.
    pub open spec fn spec_sig_from(&self, bin: Seq<char>, bitness: u32, start: int, rva: u64, sig: Seq<(u8, bool)>, pos: int) -> Result<Seq<char>, S2Error>
        decreases self.binaries_view()[bin].len() - start - pos,
    {
        let d = self.binaries_view()[bin];
        if pos < 0 || start + pos >= d.len() {
            Err(S2Error::SignatureNotFound)
        } else {
            let code = d.subrange(start + pos, d.len() as int);
            let ip = rva.wrapping_add(pos as u64);
            let ins = x86_decode(bitness, code, ip);
            if ins.invalid {
                if sig.len() == 0 {
                    Err(S2Error::InvalidInstruction)
                } else {
                    Err(S2Error::SignatureNotFound)
                }
            } else if ins.len == 0 || start + pos + ins.len > d.len() {
                Err(S2Error::InstructionOutOfRange)
            } else if pos + ins.len > MAX_SIGNATURE_LENGTH {
                Err(S2Error::SignatureTooLong)
            } else {
                let next = sig + insn_sig(d, start + pos, ins.len as int, x86_constant_offsets(bitness, code, ip));
                if self.spec_sig_unique(bin, next) {
                    Ok(ida_signature_text(trim_wildcards(next)))
                } else {
                    self.spec_sig_from(bin, bitness, start, rva, next, pos + ins.len)
                }
            }
        }
    }

    /// What `make_sig_rva` returns.
    pub open spec fn spec_make_sig(&self, bin: Seq<char>, func_rva: u64) -> Result<Seq<char>, S2Error> {
        if !self.binaries_view().contains_key(bin) {
            Err(S2Error::BinaryNotFound)
        } else {
            let d = self.binaries_view()[bin];
            match object_file_kind(d) {
                None => Err(S2Error::ObjectParse),
                Some(k) => match spec_bitness(k) {
                    None => Err(S2Error::UnsupportedFormat),
                    Some(b) => match self.spec_rva_to_offset(bin, func_rva) {
                        Err(e) => Err(e),
                        Ok(off) => if off >= d.len() {
                            Err(S2Error::InvalidAddress)
                        } else {
                            self.spec_sig_from(bin, b, off as int, func_rva, Seq::empty(), 0)
                        },
                    },
                },
            }
        }
    }

    /// A signature of the function at address `func_rva` of binary
    /// `binary_name` that matches only there: its instructions' bytes, with
    /// displacements and nonzero immediates as wildcards, up to the first
    /// instruction that makes the prefix unique, without trailing
    /// wildcards.
    pub fn make_sig_rva(&self, binary_name: &str, func_rva: u64) -> (r: Result<String, S2Error>)
        requires
            self.wf(),
        ensures
            match self.spec_make_sig(binary_name@, func_rva) {
                Ok(s) => r matches Ok(t) && t@ == s,
                Err(e) => r == Err::<String, S2Error>(e),
            },
    {
        let data = self.get_binary(binary_name)?;
        let bitness: u32 = match read_file_kind(data)? {
            FileKindModel::Pe64 { .. } => 64,
            FileKindModel::Elf64 => 64,
            FileKindModel::Pe32 { .. } => 32,
            FileKindModel::Elf32 => 32,
            FileKindModel::Other { .. } => {
                return Err(S2Error::UnsupportedFormat);
            },
        };
        let start = self.rva_to_file_offset(binary_name, func_rva)?;
        if start >= data.len() as u64 {
            return Err(S2Error::InvalidAddress);
        }
        let start = start as usize;
        let dl = data.len();
        let mut signature: Vec<(u8, bool)> = Vec::new();
        let mut pos: usize = 0;
        while start + pos < dl
            invariant
                self.wf(),
                dl == data@.len(),
                self.binaries_view().contains_key(binary_name@),
                data@ == self.binaries_view()[binary_name@],
                bitness == 32 || bitness == 64,
                start < data@.len(),
                start + pos <= data@.len(),
                pos <= MAX_SIGNATURE_LENGTH,
                self.spec_make_sig(binary_name@, func_rva)
                    == self.spec_sig_from(binary_name@, bitness, start as int, func_rva, signature@, pos as int),
            decreases data@.len() - start - pos,
        {
            let code = vstd::slice::slice_subrange(data, start + pos, data.len());
            let ip = func_rva.wrapping_add(pos as u64);
            let ins = decode_insn(bitness, code, ip);
            if ins.invalid {
                if signature.len() == 0 {
                    return Err(S2Error::InvalidInstruction);
                }
                return Err(S2Error::SignatureNotFound);
            }
            if ins.len == 0 || ins.len > data.len() - (start + pos) {
                return Err(S2Error::InstructionOutOfRange);
            }
            if ins.len > MAX_SIGNATURE_LENGTH - pos {
                return Err(S2Error::SignatureTooLong);
            }
            let co = decode_constant_offsets(bitness, code, ip);
            let entries = instruction_signature(data, start + pos, ins.len, &co);
            let mut more = entries;
            signature.append(&mut more);
            if self.is_signature_unique(binary_name, &signature) {
                trim_signature(&mut signature);
                return Ok(build_ida_signature(signature.as_slice()));
            }
            pos = pos + ins.len;
        }
        Err(S2Error::SignatureNotFound)
    }
}

} // verus!
