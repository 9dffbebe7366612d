use vstd::prelude::*;

use crate::register::Reg;
use crate::utils::{hi_byte, lo_byte, word_of_i16};

verus! {

/// An immediate 16-bit value loaded into a register.
pub type Immediate = u16;

/// An offset into the stack, addressing one 16-bit word.
pub type StackPos = u16;

/// A signed relative jump distance, counted in instructions.
pub type Offset = i16;

/// One operation of the machine. The set is closed: the codec, the assembler
/// and the interpreter each handle every variant, and the compiler checks the
/// three match expressions for exhaustiveness.
///
/// Arithmetic and comparison variants name two registers; arithmetic writes
/// its result into the second one.
#[derive(Clone, Copy, Debug, PartialEq, Eq, Structural)]
pub enum Instruction {
    /// Halt; the exit status is the value of register `R0`.
    Ret,
    /// Load an immediate: `reg <- imm`.
    PutReg(Immediate, Reg),
    /// Load from the stack: `reg <- stack[pos]`.
    CopySR(StackPos, Reg),
    /// Copy between registers: `second <- first`.
    CopyRR(Reg, Reg),
    /// Store to the stack: `stack[pos] <- reg`.
    CopyRS(Reg, StackPos),
    /// Wrapping addition: `second <- second + first`.
    Add(Reg, Reg),
    /// Wrapping subtraction: `second <- second - first`.
    Sub(Reg, Reg),
    /// Wrapping multiplication: `second <- second * first`.
    Mul(Reg, Reg),
    /// Division: `second <- second / first`; a zero divisor is a fault.
    Div(Reg, Reg),
    /// Emit the register's value on the output channel.
    PrintReg(Reg),
    /// Unconditional relative jump.
    Jump(Offset),
    /// Relative jump taken when the condition flag is set.
    JumpTrue(Offset),
    /// Relative jump taken when the condition flag is clear.
    JumpFalse(Offset),
    /// Condition flag `<- first == second`.
    Eq(Reg, Reg),
    /// Condition flag `<- first != second`.
    Neq(Reg, Reg),
    /// Condition flag `<- first < second`.
    Lt(Reg, Reg),
    /// Condition flag `<- first <= second`.
    Lte(Reg, Reg),
    /// Condition flag `<- first > second`.
    Gt(Reg, Reg),
    /// Condition flag `<- first >= second`.
    Gte(Reg, Reg),
}

impl Instruction {
    /// The wire image of the instruction: one opcode tag byte, then the
    /// operand bytes of that opcode, in a fixed order. Registers take one
    /// byte; immediates, stack offsets and jump offsets take two bytes,
    /// little-endian. The tag assignment is the binary format's ABI and is
    /// never renumbered.
    pub open spec fn spec_encode(self) -> Seq<u8> {
        match self {
            Instruction::Ret => seq![0x00u8],
            Instruction::PutReg(imm, reg) => seq![
                0x01u8,
                lo_byte(imm),
                hi_byte(imm),
                reg.ordinal() as u8,
            ],
            Instruction::CopySR(pos, reg) => seq![
                0x02u8,
                lo_byte(pos),
                hi_byte(pos),
                reg.ordinal() as u8,
            ],
            Instruction::CopyRR(r1, r2) => seq![0x03u8, r1.ordinal() as u8, r2.ordinal() as u8],
            Instruction::CopyRS(reg, pos) => seq![
                0x04u8,
                reg.ordinal() as u8,
                lo_byte(pos),
                hi_byte(pos),
            ],
            Instruction::Add(r1, r2) => seq![0x05u8, r1.ordinal() as u8, r2.ordinal() as u8],
            Instruction::Sub(r1, r2) => seq![0x06u8, r1.ordinal() as u8, r2.ordinal() as u8],
            Instruction::Mul(r1, r2) => seq![0x07u8, r1.ordinal() as u8, r2.ordinal() as u8],
            Instruction::Div(r1, r2) => seq![0x08u8, r1.ordinal() as u8, r2.ordinal() as u8],
            Instruction::PrintReg(reg) => seq![0x09u8, reg.ordinal() as u8],
            Instruction::Jump(offset) => seq![
                0x10u8,
                lo_byte(word_of_i16(offset)),
                hi_byte(word_of_i16(offset)),
            ],
            Instruction::JumpTrue(offset) => seq![
                0x11u8,
                lo_byte(word_of_i16(offset)),
                hi_byte(word_of_i16(offset)),
            ],
            Instruction::JumpFalse(offset) => seq![
                0x12u8,
                lo_byte(word_of_i16(offset)),
                hi_byte(word_of_i16(offset)),
            ],
            Instruction::Eq(r1, r2) => seq![0x13u8, r1.ordinal() as u8, r2.ordinal() as u8],
            Instruction::Neq(r1, r2) => seq![0x14u8, r1.ordinal() as u8, r2.ordinal() as u8],
            Instruction::Lt(r1, r2) => seq![0x15u8, r1.ordinal() as u8, r2.ordinal() as u8],
            Instruction::Lte(r1, r2) => seq![0x16u8, r1.ordinal() as u8, r2.ordinal() as u8],
            Instruction::Gt(r1, r2) => seq![0x17u8, r1.ordinal() as u8, r2.ordinal() as u8],
            Instruction::Gte(r1, r2) => seq![0x18u8, r1.ordinal() as u8, r2.ordinal() as u8],
        }
    }

    /// Encoding is total: every instruction has a wire image, one to four
    /// bytes long.
    #[verifier::rlimit(50)]
    pub fn encode(&self) -> (r: Vec<u8>)
        ensures
            r@ == self.spec_encode(),
            1 <= r@.len() <= 4,
    {
        let mut bytes: Vec<u8> = Vec::new();
        match *self {
            Instruction::Ret => {
                bytes.push(0x00);
            },
            Instruction::PutReg(imm, reg) => {
                let (b1, b2) = crate::utils::u16_to_u8(imm);
                bytes.push(0x01);
                bytes.push(b1);
                bytes.push(b2);
                bytes.push(reg.to_u8());
            },
            Instruction::CopySR(pos, reg) => {
                let (b1, b2) = crate::utils::u16_to_u8(pos);
                bytes.push(0x02);
                bytes.push(b1);
                bytes.push(b2);
                bytes.push(reg.to_u8());
            },
            Instruction::CopyRR(r1, r2) => {
                bytes.push(0x03);
                bytes.push(r1.to_u8());
                bytes.push(r2.to_u8());
            },
            Instruction::CopyRS(reg, pos) => {
                let (b1, b2) = crate::utils::u16_to_u8(pos);
                bytes.push(0x04);
                bytes.push(reg.to_u8());
                bytes.push(b1);
                bytes.push(b2);
            },
            Instruction::Add(r1, r2) => {
                bytes.push(0x05);
                bytes.push(r1.to_u8());
                bytes.push(r2.to_u8());
            },
            Instruction::Sub(r1, r2) => {
                bytes.push(0x06);
                bytes.push(r1.to_u8());
                bytes.push(r2.to_u8());
            },
            Instruction::Mul(r1, r2) => {
                bytes.push(0x07);
                bytes.push(r1.to_u8());
                bytes.push(r2.to_u8());
            },
            Instruction::Div(r1, r2) => {
                bytes.push(0x08);
                bytes.push(r1.to_u8());
                bytes.push(r2.to_u8());
            },
            Instruction::PrintReg(reg) => {
                bytes.push(0x09);
                bytes.push(reg.to_u8());
            },
            Instruction::Jump(offset) => {
                let (b1, b2) = crate::utils::i16_to_u8(offset);
                bytes.push(0x10);
                bytes.push(b1);
                bytes.push(b2);
            },
            Instruction::JumpTrue(offset) => {
                let (b1, b2) = crate::utils::i16_to_u8(offset);
                bytes.push(0x11);
                bytes.push(b1);
                bytes.push(b2);
            },
            Instruction::JumpFalse(offset) => {
                let (b1, b2) = crate::utils::i16_to_u8(offset);
                bytes.push(0x12);
                bytes.push(b1);
                bytes.push(b2);
            },
            Instruction::Eq(r1, r2) => {
                bytes.push(0x13);
                bytes.push(r1.to_u8());
                bytes.push(r2.to_u8());
            },
            Instruction::Neq(r1, r2) => {
                bytes.push(0x14);
                bytes.push(r1.to_u8());
                bytes.push(r2.to_u8());
            },
            Instruction::Lt(r1, r2) => {
                bytes.push(0x15);
                bytes.push(r1.to_u8());
                bytes.push(r2.to_u8());
            },
            Instruction::Lte(r1, r2) => {
                bytes.push(0x16);
                bytes.push(r1.to_u8());
                bytes.push(r2.to_u8());
            },
            Instruction::Gt(r1, r2) => {
                bytes.push(0x17);
                bytes.push(r1.to_u8());
                bytes.push(r2.to_u8());
            },
            Instruction::Gte(r1, r2) => {
                bytes.push(0x18);
                bytes.push(r1.to_u8());
                bytes.push(r2.to_u8());
            },
        }
        proof {
            assert(bytes@ =~= self.spec_encode());
        }
        bytes
    }
}

} // verus!
