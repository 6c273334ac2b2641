//! The machine code of a jump trampoline: padding, then an absolute jump to
//! the target through `rax`.
use vstd::prelude::*;

use crate::error::S2Error;
use crate::vtfind::le_bytes_u64;

verus! {

/// The instructions a trampoline is made of.
#[derive(Debug, Clone, Copy, PartialEq, Eq, Structural)]
pub enum TrampolineInsn {
    /// `nop` with a 16-bit operand size.
    Nopw,
    /// `mov rax, value`.
    MovRaxImm64 { value: u64 },
    /// `jmp rax`.
    JmpRax,
}

/// The x86-64 machine code of an instruction: `66 90` for `nopw`,
/// `48 B8` and the little-endian immediate for `mov rax, imm64`, `FF E0`
/// for `jmp rax`.
pub open spec fn x86_encoding(insn: TrampolineInsn) -> Seq<u8> {
    match insn {
        TrampolineInsn::Nopw => seq![0x66u8, 0x90u8],
        TrampolineInsn::MovRaxImm64 { value } => seq![0x48u8, 0xB8u8] + le_bytes_u64(value),
        TrampolineInsn::JmpRax => seq![0xFFu8, 0xE0u8],
    }
}

/// `iced_x86::Encoder::encode` of the instruction, in 64-bit mode at
/// address 0, and the encoded bytes: these three instructions are valid in
/// 64-bit mode and encode to the bytes `x86_encoding` gives (iced's code
/// table: `Nopw` is `o16 90`, `Mov_r64_imm64` is `o64 B8+ro io`, and
/// `Jmp_rm64` is `FF /4`, whose 64-bit operand size is the default in
/// 64-bit mode, so no REX prefix; with `rax` as the operand the ModRM byte
/// is `E0`). The claim that encoding does not fail rests on that table.
#[verifier::external_body]
fn encode_insn(insn: TrampolineInsn) -> (r: Result<Vec<u8>, S2Error>)
    ensures
        match r {
            Ok(b) => b@ == x86_encoding(insn),
            Err(_) => false,
        },
{
    let ins = match insn {
        TrampolineInsn::Nopw => Ok(iced_x86::Instruction::with(iced_x86::Code::Nopw)),
        TrampolineInsn::MovRaxImm64 { value } => iced_x86::Instruction::with2(iced_x86::Code::Mov_r64_imm64, iced_x86::Register::RAX, value),
        TrampolineInsn::JmpRax => iced_x86::Instruction::with1(iced_x86::Code::Jmp_rm64, iced_x86::Register::RAX),
    }.map_err(|_| S2Error::EncodeFailed)?;
    let mut enc = iced_x86::Encoder::new(64);
    enc.encode(&ins, 0).map_err(|_| S2Error::EncodeFailed)?;
    Ok(enc.take_buffer())
}

/// Number of padding instructions before the jump.
pub const TRAMPOLINE_PADDING: usize = 20;

/// `s` repeated `k` times.
pub open spec fn repeat(s: Seq<u8>, k: nat) -> Seq<u8>
    decreases k,
{
    if k == 0 {
        Seq::empty()
    } else {
        repeat(s, (k - 1) as nat) + s
    }
}

/// The trampoline's code: twenty `nopw`, `mov rax, target`, `jmp rax`.
pub open spec fn trampoline_bytes(target: u64) -> Seq<u8> {
    repeat(x86_encoding(TrampolineInsn::Nopw), TRAMPOLINE_PADDING as nat)
        + x86_encoding(TrampolineInsn::MovRaxImm64 { value: target })
        + x86_encoding(TrampolineInsn::JmpRax)
}

/// The machine code of a trampoline that jumps to `target`.
pub fn trampoline_code(target: u64) -> (r: Result<Vec<u8>, S2Error>)
    ensures
        r matches Ok(v) && v@ == trampoline_bytes(target),
{
    let mut code: Vec<u8> = Vec::new();
    let mut k: usize = 0;
    while k < TRAMPOLINE_PADDING
        invariant
            k <= TRAMPOLINE_PADDING,
            code@ == repeat(x86_encoding(TrampolineInsn::Nopw), k as nat),
        decreases TRAMPOLINE_PADDING - k,
    {
        let mut nop = encode_insn(TrampolineInsn::Nopw)?;
        code.append(&mut nop);
        k = k + 1;
    }
    let mut mov = encode_insn(TrampolineInsn::MovRaxImm64 { value: target })?;
    code.append(&mut mov);
    let mut jmp = encode_insn(TrampolineInsn::JmpRax)?;
    code.append(&mut jmp);
    Ok(code)
}

} // verus!
