//! The decoded-instruction model: the plain values the lifting rules read
//! from one machine instruction, and the trusted boundary to the byte-level
//! decoder that produces them.

use vstd::prelude::*;

verus! {

/// One concrete register read from a decoded operand slot: the decoder's
/// numeric register identifier together with its printable name.
#[derive(Clone)]
pub struct Reg {
    pub id: u32,
    pub name: String,
}

/// Mathematical image of a `Reg`.
pub struct RegV {
    pub id: u32,
    pub name: Seq<char>,
}

impl View for Reg {
    type V = RegV;

    open spec fn view(&self) -> RegV {
        RegV { id: self.id, name: self.name@ }
    }
}

/// An operand slot reduced to the plain values the lifting rules inspect:
/// a register, a memory displacement, a sign-extended 8-to-64-bit
/// immediate, or any other operand shape (including an absent one).
#[derive(Clone)]
pub enum Operand {
    Reg(Reg),
    Mem(u64),
    Imm(i64),
    Other,
}

/// Mathematical image of an `Operand`.
pub enum OperandV {
    Reg(RegV),
    Mem(u64),
    Imm(i64),
    Other,
}

impl View for Operand {
    type V = OperandV;

    open spec fn view(&self) -> OperandV {
        match self {
            Operand::Reg(r) => OperandV::Reg(r@),
            Operand::Mem(d) => OperandV::Mem(*d),
            Operand::Imm(v) => OperandV::Imm(*v),
            Operand::Other => OperandV::Other,
        }
    }
}

/// The opcode discriminants the rule table dispatches on. An instruction
/// outside the table keeps its raw numeric code in `Other`.
#[derive(Clone, Copy, PartialEq, Eq, Structural, Debug)]
pub enum Opcode {
    PushR64,
    CallRm64,
    XorRm32R32,
    MovRm64R64,
    AndRm64Imm8,
    Retnq,
    Hlt,
    Other(u32),
}

/// One decoded instruction, reduced to plain values: the opcode
/// discriminant, its printable name, the encoded length in bytes, and the
/// four operand slots.
#[derive(Clone)]
pub struct Inst {
    pub opcode: Opcode,
    pub mnemonic: String,
    pub len: usize,
    pub op0: Operand,
    pub op1: Operand,
    pub op2: Operand,
    pub op3: Operand,
}

/// Mathematical image of an `Inst`.
pub struct InstV {
    pub opcode: Opcode,
    pub mnemonic: Seq<char>,
    pub len: nat,
    pub op0: OperandV,
    pub op1: OperandV,
    pub op2: OperandV,
    pub op3: OperandV,
}

impl View for Inst {
    type V = InstV;

    open spec fn view(&self) -> InstV {
        InstV {
            opcode: self.opcode,
            mnemonic: self.mnemonic@,
            len: self.len as nat,
            op0: self.op0@,
            op1: self.op1@,
            op2: self.op2@,
            op3: self.op3@,
        }
    }
}

/// The operand in slot `idx` of `i`; slots past the fourth read as `Other`.
pub open spec fn slot(i: InstV, idx: int) -> OperandV {
    if idx == 0 {
        i.op0
    } else if idx == 1 {
        i.op1
    } else if idx == 2 {
        i.op2
    } else if idx == 3 {
        i.op3
    } else {
        OperandV::Other
    }
}

#[verifier::external_type_specification]
#[verifier::external_body]
pub struct ExInstruction(iced_x86::Instruction);

/// What the decoder yields for a given byte window and instruction
/// pointer: x86-64 decoding is a function of the bytes and the address
/// alone.
pub uninterp spec fn decoded(bytes: Seq<u8>, ip: u64) -> InstV;

/// Relies on iced_x86::Decoder::{with_ip, can_decode, decode}: decoding is
/// deterministic in the byte window and the address, and with at least one
/// byte available it consumes between one byte and the whole window.
#[verifier::external_body]
pub(crate) fn decode_one(bytes: &[u8], ip: u64) -> (r: Option<Inst>)
    ensures
        match r {
            None => bytes@.len() == 0,
            Some(i) => bytes@.len() > 0 && i@ == decoded(bytes@, ip) && 1 <= i@.len
                <= bytes@.len(),
        },
{
    let mut decoder = iced_x86::Decoder::with_ip(64, bytes, ip, iced_x86::DecoderOptions::NONE);
    if !decoder.can_decode() {
        return None;
    }
    let inst = decoder.decode();
    Some(Inst {
        opcode: opcode_from(&inst),
        mnemonic: format!("{:?}", inst.code()),
        len: inst.len(),
        op0: operand_from(&inst, 0),
        op1: operand_from(&inst, 1),
        op2: operand_from(&inst, 2),
        op3: operand_from(&inst, 3),
    })
}

/// Relies on iced_x86::Instruction::code: tells the codes of the rule
/// table apart from every other code, which keeps its raw numeric value.
/// Serves only decode_one.
#[verifier::external_body]
fn opcode_from(inst: &iced_x86::Instruction) -> Opcode {
    match inst.code() {
        iced_x86::Code::Push_r64 => Opcode::PushR64,
        iced_x86::Code::Call_rm64 => Opcode::CallRm64,
        iced_x86::Code::Xor_rm32_r32 => Opcode::XorRm32R32,
        iced_x86::Code::Mov_rm64_r64 => Opcode::MovRm64R64,
        iced_x86::Code::And_rm64_imm8 => Opcode::AndRm64Imm8,
        iced_x86::Code::Retnq => Opcode::Retnq,
        iced_x86::Code::Hlt => Opcode::Hlt,
        c => Opcode::Other(c as u32),
    }
}

/// Relies on iced_x86::Instruction::{op0_kind..op3_kind, op0_register..
/// op3_register, memory_displacement64, immediate8to64}: moves the decoded
/// operand of one slot over, field by field. iced_x86::Register::None
/// carries the numeric identifier 0. Serves only decode_one.
#[verifier::external_body]
fn operand_from(inst: &iced_x86::Instruction, n: u32) -> Operand {
    let (kind, reg) = match n {
        0 => (inst.op0_kind(), inst.op0_register()),
        1 => (inst.op1_kind(), inst.op1_register()),
        2 => (inst.op2_kind(), inst.op2_register()),
        _ => (inst.op3_kind(), inst.op3_register()),
    };
    match kind {
        iced_x86::OpKind::Register => Operand::Reg(Reg { id: reg as u32, name: format!("{:?}", reg) }),
        iced_x86::OpKind::Memory => Operand::Mem(inst.memory_displacement64()),
        iced_x86::OpKind::Immediate8to64 => Operand::Imm(inst.immediate8to64()),
        _ => Operand::Other,
    }
}

} // verus!
