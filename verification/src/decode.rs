//! x86 instructions, decoded by `iced_x86` into plain values, and what the
//! library reads from them: the address an instruction refers to, and the
//! shape of a state-changed notification.
use vstd::prelude::*;

use crate::error::S2Error;
use iced_x86::{Decoder, DecoderOptions};

verus! {

/// Operand kind of an `iced_x86` operand: a near branch of 16 bits.
pub const OP_NEAR_BRANCH16: u8 = 1;
/// Operand kind: a near branch of 32 bits.
pub const OP_NEAR_BRANCH32: u8 = 2;
/// Operand kind: a near branch of 64 bits.
pub const OP_NEAR_BRANCH64: u8 = 3;
/// Operand kind: a 32-bit immediate.
pub const OP_IMMEDIATE32: u8 = 9;
/// Operand kind: a 64-bit immediate.
pub const OP_IMMEDIATE64: u8 = 10;
/// Operand kind: a memory operand.
pub const OP_MEMORY: u8 = 24;
/// Register number of "no register".
pub const REGISTER_NONE: u8 = 0;
/// Instruction code of `cmp r/m32, imm8`.
pub const CODE_CMP_RM32_IMM8: u16 = 269;

/// One decoded instruction, as the library reads it. Operand kinds,
/// registers and the instruction code are `iced_x86`'s numbers for them.
#[derive(Debug, Clone)]
pub struct InsnModel {
    /// Length in bytes.
    pub len: usize,
    /// The bytes do not decode to a valid instruction.
    pub invalid: bool,
    pub call_near: bool,
    pub call_far: bool,
    pub code: u16,
    /// The memory operand is relative to the instruction pointer.
    pub ip_rel: bool,
    /// The address an IP-relative memory operand refers to.
    pub ip_rel_target: u64,
    pub base_reg: u8,
    pub index_reg: u8,
    /// The memory displacement (its low 32 bits are the 32-bit displacement).
    pub displacement64: u64,
    pub immediate8: u8,
    pub near_target: u64,
    /// The kind of each operand.
    pub op_kinds: Vec<u8>,
    /// The immediate value of each operand (0 for one that is not an immediate).
    pub immediates: Vec<u64>,
}

/// Where an instruction's displacement and immediates lie within it: the
/// offset and size of each; a size of 0 means there is none.
#[derive(Debug, Clone, Copy, PartialEq, Eq, Structural)]
pub struct ConstantOffsets {
    pub displacement_offset: usize,
    pub displacement_size: usize,
    pub immediate_offset: usize,
    pub immediate_size: usize,
    pub immediate_offset2: usize,
    pub immediate_size2: usize,
}

/// The first instruction that `iced_x86` decodes from `code` in `bitness`-bit
/// mode at instruction pointer `ip`.
pub uninterp spec fn x86_decode(bitness: u32, code: Seq<u8>, ip: u64) -> InsnModel;

/// The constant offsets that `iced_x86` reports for that instruction.
pub uninterp spec fn x86_constant_offsets(bitness: u32, code: Seq<u8>, ip: u64) -> ConstantOffsets;

/// `iced_x86::Decoder::decode` on a decoder over `code` at `ip`: the first
/// instruction. The decoder reads at most 15 bytes and consumes at least one
/// byte of a nonempty input, valid or not.
#[verifier::external_body]
pub(crate) fn decode_insn(bitness: u32, code: &[u8], ip: u64) -> (r: InsnModel)
    requires
        bitness == 32 || bitness == 64,
    ensures
        r == x86_decode(bitness, code@, ip),
        code@.len() > 0 ==> 1 <= r.len <= 15 && r.len <= code@.len(),
        r.op_kinds@.len() == r.immediates@.len(),
{
    let ins = Decoder::with_ip(bitness, code, ip, DecoderOptions::NONE).decode();
    let n = ins.op_count();
    InsnModel {
        len: ins.len(), invalid: ins.is_invalid(), call_near: ins.is_call_near(), call_far: ins.is_call_far(),
        code: ins.code() as u16, ip_rel: ins.is_ip_rel_memory_operand(), ip_rel_target: ins.ip_rel_memory_address(),
        base_reg: ins.memory_base() as u8, index_reg: ins.memory_index() as u8,
        displacement64: ins.memory_displacement64(),
        immediate8: ins.immediate8(), near_target: ins.near_branch_target(),
        op_kinds: (0..n).map(|i| ins.op_kind(i) as u8).collect(),
        immediates: (0..n).map(|i| ins.try_immediate(i).unwrap_or(0)).collect(),
    }
}

/// `iced_x86::Decoder::get_constant_offsets` for the first instruction of
/// `code` at `ip`.
#[verifier::external_body]
pub(crate) fn decode_constant_offsets(bitness: u32, code: &[u8], ip: u64) -> (r: ConstantOffsets)
    requires
        bitness == 32 || bitness == 64,
    ensures
        r == x86_constant_offsets(bitness, code@, ip),
{
    let mut decoder = Decoder::with_ip(bitness, code, ip, DecoderOptions::NONE);
    let ins = decoder.decode();
    let c = decoder.get_constant_offsets(&ins);
    ConstantOffsets {
        displacement_offset: c.displacement_offset(), displacement_size: c.displacement_size(),
        immediate_offset: c.immediate_offset(), immediate_size: c.immediate_size(),
        immediate_offset2: c.immediate_offset2(), immediate_size2: c.immediate_size2(),
    }
}

/// A near branch of any width.
pub open spec fn is_near_branch(kind: u8) -> bool {
    kind == OP_NEAR_BRANCH16 || kind == OP_NEAR_BRANCH32 || kind == OP_NEAR_BRANCH64
}

/// The address the instruction refers to, from operand `k` on: the first
/// IP-relative memory operand's target, absolute memory operand's nonzero
/// displacement, or near branch's target.
pub open spec fn xref_target_from(ins: InsnModel, k: int) -> Option<u64>
    decreases ins.op_kinds@.len() - k,
{
    if k < 0 || k >= ins.op_kinds@.len() {
        None
    } else {
        let kind = ins.op_kinds@[k];
        if kind == OP_MEMORY && ins.ip_rel {
            Some(ins.ip_rel_target)
        } else if kind == OP_MEMORY && ins.base_reg == REGISTER_NONE && ins.index_reg == REGISTER_NONE
            && ins.displacement64 != 0 {
            Some(ins.displacement64)
        } else if is_near_branch(kind) {
            Some(ins.near_target)
        } else {
            xref_target_from(ins, k + 1)
        }
    }
}

/// What following the cross-reference of a decoded instruction gives.
pub open spec fn spec_insn_xref(ins: InsnModel) -> Result<u64, S2Error> {
    if ins.invalid {
        Err(S2Error::InvalidInstruction)
    } else {
        match xref_target_from(ins, 0) {
            Some(t) => Ok(t),
            None => Err(S2Error::NoXrefInInstruction),
        }
    }
}

/// The address a decoded instruction refers to: an error for an invalid
/// instruction or one that refers to no address.
pub fn instruction_xref_target(ins: &InsnModel) -> (r: Result<u64, S2Error>)
    ensures
        r == spec_insn_xref(*ins),
{
    if ins.invalid {
        return Err(S2Error::InvalidInstruction);
    }
    let mut k: usize = 0;
    while k < ins.op_kinds.len()
        invariant
            k <= ins.op_kinds@.len(),
            !ins.invalid,
            xref_target_from(*ins, 0) == xref_target_from(*ins, k as int),
        decreases ins.op_kinds@.len() - k,
    {
        let kind = ins.op_kinds[k];
        if kind == OP_MEMORY && ins.ip_rel {
            return Ok(ins.ip_rel_target);
        }
        if kind == OP_MEMORY && ins.base_reg == REGISTER_NONE && ins.index_reg == REGISTER_NONE && ins.displacement64 != 0 {
            return Ok(ins.displacement64);
        }
        if kind == OP_NEAR_BRANCH16 || kind == OP_NEAR_BRANCH32 || kind == OP_NEAR_BRANCH64 {
            return Ok(ins.near_target);
        }
        k = k + 1;
    }
    Err(S2Error::NoXrefInInstruction)
}

/// The address that the 64-bit instruction at the start of `code`, located
/// at `ip`, refers to.
pub fn xref_target_of_bytes(code: &[u8], ip: u64) -> (r: Result<u64, S2Error>)
    ensures
        r == spec_insn_xref(x86_decode(64, code@, ip)),
{
    let ins = decode_insn(64, code, ip);
    instruction_xref_target(&ins)
}

/// `cmp dword ptr [reg+56], 0FFh`: the test of a state-changed notification's
/// path index against -1.
pub open spec fn spec_is_path_index_compare(ins: InsnModel) -> bool {
    ins.code == CODE_CMP_RM32_IMM8 && ins.displacement64 as u32 == 56 && ins.immediate8 == 255
}

/// Whether a decoded instruction is that compare.
pub fn is_path_index_compare(ins: &InsnModel) -> (r: bool)
    ensures
        r == spec_is_path_index_compare(*ins),
{
    ins.code == CODE_CMP_RM32_IMM8 && ins.displacement64 as u32 == 56 && ins.immediate8 == 255
}

/// Whether some instruction decoded from `code` (64-bit, from address 0),
/// from byte `pos` on, is that compare.
pub open spec fn has_path_index_compare(code: Seq<u8>, pos: int) -> bool
    decreases code.len() - pos,
{
    if pos < 0 || pos >= code.len() {
        false
    } else {
        let ins = x86_decode(64, code.skip(pos), pos as u64);
        if spec_is_path_index_compare(ins) {
            true
        } else if ins.len == 0 || pos + ins.len > code.len() {
            false
        } else {
            has_path_index_compare(code, pos + ins.len)
        }
    }
}

/// Decodes `code` as 64-bit instructions from address 0 and reports whether
/// one of them is the path index compare.
pub fn code_has_path_index_compare(code: &[u8]) -> (r: bool)
    ensures
        r == has_path_index_compare(code@, 0),
{
    let mut pos: usize = 0;
    while pos < code.len()
        invariant
            pos <= code@.len(),
            has_path_index_compare(code@, 0) == has_path_index_compare(code@, pos as int),
        decreases code@.len() - pos,
    {
        let rest = vstd::slice::slice_subrange(code, pos, code.len());
        assert(rest@ == code@.skip(pos as int));
        let ins = decode_insn(64, rest, pos as u64);
        if is_path_index_compare(&ins) {
            return true;
        }
        pos = pos + ins.len;
    }
    false
}


/// The address operand `k` of an instruction contributes to the
/// cross-reference table: an IP-relative memory operand's target, an
/// absolute memory operand's nonzero displacement, a near branch's target,
/// or a 32- or 64-bit immediate (truncated to 32 bits in 32-bit code) that
/// lies in the first 256 MiB (64-bit) or 16 MiB (32-bit) from the image
/// base.
pub open spec fn operand_ref(ins: InsnModel, bitness: u32, image_base: u64, k: int) -> Option<u64> {
    let kind = ins.op_kinds@[k];
    if kind == OP_MEMORY {
        if ins.ip_rel {
            Some(ins.ip_rel_target)
        } else if ins.base_reg == REGISTER_NONE && ins.index_reg == REGISTER_NONE && ins.displacement64 != 0 {
            Some(ins.displacement64)
        } else {
            None
        }
    } else if is_near_branch(kind) {
        Some(ins.near_target)
    } else if kind == OP_IMMEDIATE32 || kind == OP_IMMEDIATE64 {
        let imm = if bitness == 64 { ins.immediates@[k] } else { (ins.immediates@[k] as u32) as u64 };
        let span: u64 = if bitness == 64 { 0x1000_0000 } else { 0x100_0000 };
        if imm >= image_base && imm < image_base.wrapping_add(span) {
            Some(imm)
        } else {
            None
        }
    } else {
        None
    }
}

/// The addresses the operands from `k` on contribute, in operand order.
pub open spec fn insn_refs_from(ins: InsnModel, bitness: u32, image_base: u64, k: int) -> Seq<u64>
    decreases ins.op_kinds@.len() - k,
{
    if k < 0 || k >= ins.op_kinds@.len() {
        Seq::empty()
    } else {
        match operand_ref(ins, bitness, image_base, k) {
            Some(t) => seq![t] + insn_refs_from(ins, bitness, image_base, k + 1),
            None => insn_refs_from(ins, bitness, image_base, k + 1),
        }
    }
}

/// Those addresses, each paired with the instruction's address `ip`.
pub open spec fn insn_events_from(ins: InsnModel, bitness: u32, image_base: u64, ip: u64, k: int) -> Seq<(u64, u64)>
    decreases ins.op_kinds@.len() - k,
{
    if k < 0 || k >= ins.op_kinds@.len() {
        Seq::empty()
    } else {
        match operand_ref(ins, bitness, image_base, k) {
            Some(t) => seq![(t, ip)] + insn_events_from(ins, bitness, image_base, ip, k + 1),
            None => insn_events_from(ins, bitness, image_base, ip, k + 1),
        }
    }
}

/// The instruction at byte `pos` of a section's code, which starts at `rva`.
pub open spec fn section_insn(bitness: u32, code: Seq<u8>, rva: u64, pos: int) -> InsnModel {
    x86_decode(bitness, code.skip(pos), rva.wrapping_add(pos as u64))
}

/// Whether decoding goes on past the instruction at `pos`.
pub open spec fn section_steps(bitness: u32, code: Seq<u8>, rva: u64, pos: int) -> bool {
    let ins = section_insn(bitness, code, rva, pos);
    0 <= pos < code.len() && ins.len > 0 && pos + ins.len <= code.len()
}

/// The (target, instruction address) pairs of the valid instructions
/// decoded from byte `pos` of a section's code on.
pub open spec fn section_events(bitness: u32, code: Seq<u8>, rva: u64, image_base: u64, pos: int) -> Seq<(u64, u64)>
    decreases code.len() - pos,
{
    if !section_steps(bitness, code, rva, pos) {
        Seq::empty()
    } else {
        let ins = section_insn(bitness, code, rva, pos);
        let here = if ins.invalid {
            Seq::empty()
        } else {
            insn_events_from(ins, bitness, image_base, rva.wrapping_add(pos as u64), 0)
        };
        here + section_events(bitness, code, rva, image_base, pos + ins.len)
    }
}

/// The targets contributed by the valid call instructions decoded from
/// byte `pos` of a section's code on.
pub open spec fn section_calls(bitness: u32, code: Seq<u8>, rva: u64, image_base: u64, pos: int) -> Seq<u64>
    decreases code.len() - pos,
{
    if !section_steps(bitness, code, rva, pos) {
        Seq::empty()
    } else {
        let ins = section_insn(bitness, code, rva, pos);
        let here = if ins.invalid || !(ins.call_far || ins.call_near) {
            Seq::empty()
        } else {
            insn_refs_from(ins, bitness, image_base, 0)
        };
        here + section_calls(bitness, code, rva, image_base, pos + ins.len)
    }
}

/// `m` with `r` appended to the list of target `t`.
pub open spec fn add_ref(m: Map<u64, Seq<u64>>, t: u64, r: u64) -> Map<u64, Seq<u64>> {
    m.insert(t, (if m.contains_key(t) { m[t] } else { Seq::empty() }).push(r))
}

/// `m` with each (target, address) pair of `ev` appended in turn.
pub open spec fn apply_events(m: Map<u64, Seq<u64>>, ev: Seq<(u64, u64)>) -> Map<u64, Seq<u64>>
    decreases ev.len(),
{
    if ev.len() == 0 {
        m
    } else {
        apply_events(add_ref(m, ev[0].0, ev[0].1), ev.drop_first())
    }
}

/// Appending two runs of pairs is appending one after the other.
pub proof fn lemma_apply_concat(m: Map<u64, Seq<u64>>, a: Seq<(u64, u64)>, b: Seq<(u64, u64)>)
    ensures
        apply_events(m, a + b) == apply_events(apply_events(m, a), b),
    decreases a.len(),
{
    if a.len() == 0 {
        assert(a + b =~= b);
    } else {
        assert((a + b).drop_first() =~= a.drop_first() + b);
        assert((a + b)[0] == a[0]);
        lemma_apply_concat(add_ref(m, a[0].0, a[0].1), a.drop_first(), b);
    }
}

/// The contribution of operand `k`, as the exec code computes it.
pub fn operand_ref_of(ins: &InsnModel, bitness: u32, image_base: u64, k: usize) -> (r: Option<u64>)
    requires
        k < ins.op_kinds@.len(),
        ins.op_kinds@.len() == ins.immediates@.len(),
    ensures
        r == operand_ref(*ins, bitness, image_base, k as int),
{
    let kind = ins.op_kinds[k];
    if kind == OP_MEMORY {
        if ins.ip_rel {
            Some(ins.ip_rel_target)
        } else if ins.base_reg == REGISTER_NONE && ins.index_reg == REGISTER_NONE && ins.displacement64 != 0 {
            Some(ins.displacement64)
        } else {
            None
        }
    } else if kind == OP_NEAR_BRANCH16 || kind == OP_NEAR_BRANCH32 || kind == OP_NEAR_BRANCH64 {
        Some(ins.near_target)
    } else if kind == OP_IMMEDIATE32 || kind == OP_IMMEDIATE64 {
        let imm = if bitness == 64 { ins.immediates[k] } else { (ins.immediates[k] as u32) as u64 };
        let span: u64 = if bitness == 64 { 0x1000_0000 } else { 0x100_0000 };
        if imm >= image_base && imm < image_base.wrapping_add(span) {
            Some(imm)
        } else {
            None
        }
    } else {
        None
    }
}

} // verus!
