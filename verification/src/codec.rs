use vstd::prelude::*;

use crate::instruction::Instruction;
use crate::register::Reg;
use crate::utils::{i16_of_word, word_of_bytes};

verus! {

/// Why a byte stream failed to decode. Each variant carries the byte offset
/// at which decoding stopped.
#[derive(Clone, Copy, Debug, PartialEq, Eq, Structural)]
pub enum DecodeError {
    /// The tag byte at `offset` is assigned to no opcode.
    UnknownOpcode { offset: usize, opcode: u8 },
    /// The instruction starting at `offset` needs more operand bytes than
    /// remain in the stream.
    Truncated { offset: usize },
    /// The register operand byte at `offset` is 16 or more and names no
    /// register.
    InvalidRegister { offset: usize, value: u8 },
}

/// Prepends one decoded instruction to the result of decoding the rest.
pub open spec fn cons_result(
    x: Instruction,
    rest: Result<Seq<Instruction>, DecodeError>,
) -> Result<Seq<Instruction>, DecodeError> {
    match rest {
        Ok(s) => Ok(seq![x] + s),
        Err(e) => Err(e),
    }
}

/// The two-register instruction of an opcode tag. Covers the tags
/// 0x03, 0x05 through 0x08 and 0x13 through 0x18; other tags do not reach it.
pub open spec fn two_reg_instr(op: u8, r1: Reg, r2: Reg) -> Instruction {
    if op == 0x03 {
        Instruction::CopyRR(r1, r2)
    } else if op == 0x05 {
        Instruction::Add(r1, r2)
    } else if op == 0x06 {
        Instruction::Sub(r1, r2)
    } else if op == 0x07 {
        Instruction::Mul(r1, r2)
    } else if op == 0x13 {
        Instruction::Eq(r1, r2)
    } else if op == 0x14 {
        Instruction::Neq(r1, r2)
    } else if op == 0x15 {
        Instruction::Lt(r1, r2)
    } else if op == 0x16 {
        Instruction::Lte(r1, r2)
    } else if op == 0x17 {
        Instruction::Gt(r1, r2)
    } else if op == 0x18 {
        Instruction::Gte(r1, r2)
    } else {
        Instruction::Div(r1, r2)
    }
}

/// Whether `op` tags a two-register instruction.
pub open spec fn is_two_reg_op(op: u8) -> bool {
    op == 0x03 || (0x05 <= op && op <= 0x08) || (0x13 <= op && op <= 0x18)
}

/// The jump instruction of an opcode tag, for the tags 0x10 through 0x12.
pub open spec fn jump_instr(op: u8, offset: i16) -> Instruction {
    if op == 0x10 {
        Instruction::Jump(offset)
    } else if op == 0x11 {
        Instruction::JumpTrue(offset)
    } else {
        Instruction::JumpFalse(offset)
    }
}

/// Decodes the byte stream `b` from position `i` to its end. The stream is
/// back-to-back encoded instructions with no framing, so running out of bytes
/// exactly at `b.len()` is success and running out inside an instruction is
/// an error.
pub open spec fn spec_decode_from(b: Seq<u8>, i: int) -> Result<Seq<Instruction>, DecodeError>
    decreases b.len() - i,
{
    if i < 0 || i >= b.len() {
        Ok(seq![])
    } else {
        let op = b[i];
        if op == 0x00 {
            cons_result(Instruction::Ret, spec_decode_from(b, i + 1))
        } else if op == 0x01 || op == 0x02 {
            if i + 4 > b.len() {
                Err(DecodeError::Truncated { offset: i as usize })
            } else {
                match Reg::spec_from_ordinal(b[i + 3] as int) {
                    Some(reg) => {
                        let w = word_of_bytes(b[i + 1], b[i + 2]);
                        let x = if op == 0x01 {
                            Instruction::PutReg(w, reg)
                        } else {
                            Instruction::CopySR(w, reg)
                        };
                        cons_result(x, spec_decode_from(b, i + 4))
                    },
                    None => Err(
                        DecodeError::InvalidRegister { offset: (i + 3) as usize, value: b[i + 3] },
                    ),
                }
            }
        } else if op == 0x04 {
            if i + 4 > b.len() {
                Err(DecodeError::Truncated { offset: i as usize })
            } else {
                match Reg::spec_from_ordinal(b[i + 1] as int) {
                    Some(reg) => {
                        let w = word_of_bytes(b[i + 2], b[i + 3]);
                        cons_result(Instruction::CopyRS(reg, w), spec_decode_from(b, i + 4))
                    },
                    None => Err(
                        DecodeError::InvalidRegister { offset: (i + 1) as usize, value: b[i + 1] },
                    ),
                }
            }
        } else if is_two_reg_op(op) {
            if i + 3 > b.len() {
                Err(DecodeError::Truncated { offset: i as usize })
            } else {
                match Reg::spec_from_ordinal(b[i + 1] as int) {
                    Some(r1) => match Reg::spec_from_ordinal(b[i + 2] as int) {
                        Some(r2) => cons_result(
                            two_reg_instr(op, r1, r2),
                            spec_decode_from(b, i + 3),
                        ),
                        None => Err(
                            DecodeError::InvalidRegister {
                                offset: (i + 2) as usize,
                                value: b[i + 2],
                            },
                        ),
                    },
                    None => Err(
                        DecodeError::InvalidRegister { offset: (i + 1) as usize, value: b[i + 1] },
                    ),
                }
            }
        } else if op == 0x09 {
            if i + 2 > b.len() {
                Err(DecodeError::Truncated { offset: i as usize })
            } else {
                match Reg::spec_from_ordinal(b[i + 1] as int) {
                    Some(reg) => cons_result(
                        Instruction::PrintReg(reg),
                        spec_decode_from(b, i + 2),
                    ),
                    None => Err(
                        DecodeError::InvalidRegister { offset: (i + 1) as usize, value: b[i + 1] },
                    ),
                }
            }
        } else if 0x10 <= op && op <= 0x12 {
            if i + 3 > b.len() {
                Err(DecodeError::Truncated { offset: i as usize })
            } else {
                let offset = i16_of_word(word_of_bytes(b[i + 1], b[i + 2]));
                cons_result(jump_instr(op, offset), spec_decode_from(b, i + 3))
            }
        } else {
            Err(DecodeError::UnknownOpcode { offset: i as usize, opcode: op })
        }
    }
}

/// Decoding a whole byte stream: the instruction sequence it spells, or the
/// first malformation found.
pub open spec fn spec_decode(b: Seq<u8>) -> Result<Seq<Instruction>, DecodeError> {
    spec_decode_from(b, 0)
}

/// The wire image of an instruction sequence: the concatenation of the
/// images of its instructions, in order, with no framing around them.
pub open spec fn spec_encode_seq(instrs: Seq<Instruction>) -> Seq<u8>
    decreases instrs.len(),
{
    if instrs.len() == 0 {
        seq![]
    } else {
        instrs[0].spec_encode() + spec_encode_seq(instrs.skip(1))
    }
}

proof fn lemma_encode_seq_push(instrs: Seq<Instruction>, x: Instruction)
    ensures
        spec_encode_seq(instrs.push(x)) == spec_encode_seq(instrs) + x.spec_encode(),
    decreases instrs.len(),
{
    if instrs.len() == 0 {
        assert(instrs.push(x).skip(1) =~= Seq::<Instruction>::empty());
        assert(spec_encode_seq(Seq::<Instruction>::empty()) == Seq::<u8>::empty());
        assert(instrs.push(x)[0] == x);
        assert(spec_encode_seq(instrs.push(x)) == x.spec_encode() + Seq::<u8>::empty());
        assert(spec_encode_seq(instrs) =~= Seq::<u8>::empty());
        assert(x.spec_encode() + Seq::<u8>::empty() =~= x.spec_encode());
        assert(spec_encode_seq(instrs) + x.spec_encode() =~= x.spec_encode());
    } else {
        assert(instrs.push(x).skip(1) =~= instrs.skip(1).push(x));
        lemma_encode_seq_push(instrs.skip(1), x);
        assert(spec_encode_seq(instrs.push(x)) =~= spec_encode_seq(instrs) + x.spec_encode());
    }
}

/// Encodes a whole program as a flat byte stream. Total: every instruction
/// sequence has a wire image.
pub fn instruction_to_bytes(instructions: &[Instruction]) -> (r: Vec<u8>)
    ensures
        r@ == spec_encode_seq(instructions@),
{
    let mut bytes: Vec<u8> = Vec::new();
    let mut idx: usize = 0;
    while idx < instructions.len()
        invariant
            idx <= instructions@.len(),
            bytes@ == spec_encode_seq(instructions@.take(idx as int)),
        decreases instructions@.len() - idx,
    {
        let encoded = Instruction::encode(&instructions[idx]);
        let mut k: usize = 0;
        while k < encoded.len()
            invariant
                k <= encoded@.len(),
                bytes@ == spec_encode_seq(instructions@.take(idx as int)) + encoded@.take(k as int),
            decreases encoded@.len() - k,
        {
            let byte = encoded[k];
            bytes.push(byte);
            proof {
                assert(encoded@.take(k + 1) =~= encoded@.take(k as int).push(encoded@[k as int]));
                assert(bytes@ =~= spec_encode_seq(instructions@.take(idx as int)) + encoded@.take(
                    k + 1,
                ));
            }
            k = k + 1;
        }
        proof {
            assert(encoded@.take(encoded@.len() as int) =~= encoded@);
            assert(instructions@.take(idx + 1) =~= instructions@.take(idx as int).push(
                instructions@[idx as int],
            ));
            lemma_encode_seq_push(instructions@.take(idx as int), instructions@[idx as int]);
        }
        idx = idx + 1;
    }
    proof {
        assert(instructions@.take(instructions@.len() as int) =~= instructions@);
    }
    bytes
}

/// Joins an already-decoded prefix with the result of decoding the rest.
pub open spec fn prepend_result(
    pre: Seq<Instruction>,
    rest: Result<Seq<Instruction>, DecodeError>,
) -> Result<Seq<Instruction>, DecodeError> {
    match rest {
        Ok(s) => Ok(pre + s),
        Err(e) => Err(e),
    }
}

/// Decodes a flat byte stream back into instructions, or reports the first
/// malformation: an unassigned tag byte, a truncated final instruction, or a
/// register byte outside 0..=15.
#[verifier::rlimit(80)]
pub fn bytes_to_instructions(bytes: &[u8]) -> (r: Result<Vec<Instruction>, DecodeError>)
    ensures
        match r {
            Ok(v) => spec_decode(bytes@) == Ok::<Seq<Instruction>, DecodeError>(v@),
            Err(e) => spec_decode(bytes@) == Err::<Seq<Instruction>, DecodeError>(e),
        },
{
    let mut i: usize = 0;
    let mut instructions: Vec<Instruction> = Vec::new();
    let n = bytes.len();
    while i < n
        invariant
            i <= n,
            n == bytes@.len(),
            spec_decode(bytes@) == prepend_result(instructions@, spec_decode_from(bytes@, i as int)),
        decreases n - i,
    {
        let ghost prev = instructions@;
        let op = bytes[i];
        if op == 0x00 {
            instructions.push(Instruction::Ret);
            proof {
                lemma_step(bytes@, i as int, prev, Instruction::Ret, i + 1);
            }
            i = i + 1;
        } else if op == 0x01 || op == 0x02 {
            if n - i < 4 {
                return Err(DecodeError::Truncated { offset: i });
            }
            match Reg::from_u8(bytes[i + 3]) {
                Some(reg) => {
                    let w = crate::utils::u8_to_u16(bytes[i + 1], bytes[i + 2]);
                    let x = if op == 0x01 {
                        Instruction::PutReg(w, reg)
                    } else {
                        Instruction::CopySR(w, reg)
                    };
                    instructions.push(x);
                    proof {
                        lemma_step(bytes@, i as int, prev, x, i + 4);
                    }
                    i = i + 4;
                },
                None => {
                    return Err(DecodeError::InvalidRegister { offset: i + 3, value: bytes[i + 3] });
                },
            }
        } else if op == 0x04 {
            if n - i < 4 {
                return Err(DecodeError::Truncated { offset: i });
            }
            match Reg::from_u8(bytes[i + 1]) {
                Some(reg) => {
                    let w = crate::utils::u8_to_u16(bytes[i + 2], bytes[i + 3]);
                    let x = Instruction::CopyRS(reg, w);
                    instructions.push(x);
                    proof {
                        lemma_step(bytes@, i as int, prev, x, i + 4);
                    }
                    i = i + 4;
                },
                None => {
                    return Err(DecodeError::InvalidRegister { offset: i + 1, value: bytes[i + 1] });
                },
            }
        } else if op == 0x03 || (0x05 <= op && op <= 0x08) || (0x13 <= op && op <= 0x18) {
            if n - i < 3 {
                return Err(DecodeError::Truncated { offset: i });
            }
            match Reg::from_u8(bytes[i + 1]) {
                Some(r1) => match Reg::from_u8(bytes[i + 2]) {
                    Some(r2) => {
                        let x = match op {
                            0x03 => Instruction::CopyRR(r1, r2),
                            0x05 => Instruction::Add(r1, r2),
                            0x06 => Instruction::Sub(r1, r2),
                            0x07 => Instruction::Mul(r1, r2),
                            0x08 => Instruction::Div(r1, r2),
                            0x13 => Instruction::Eq(r1, r2),
                            0x14 => Instruction::Neq(r1, r2),
                            0x15 => Instruction::Lt(r1, r2),
                            0x16 => Instruction::Lte(r1, r2),
                            0x17 => Instruction::Gt(r1, r2),
                            _ => Instruction::Gte(r1, r2),
                        };
                        instructions.push(x);
                        proof {
                            assert(x == two_reg_instr(op, r1, r2));
                            lemma_step(bytes@, i as int, prev, x, i + 3);
                        }
                        i = i + 3;
                    },
                    None => {
                        return Err(
                            DecodeError::InvalidRegister { offset: i + 2, value: bytes[i + 2] },
                        );
                    },
                },
                None => {
                    return Err(DecodeError::InvalidRegister { offset: i + 1, value: bytes[i + 1] });
                },
            }
        } else if op == 0x09 {
            if n - i < 2 {
                return Err(DecodeError::Truncated { offset: i });
            }
            match Reg::from_u8(bytes[i + 1]) {
                Some(reg) => {
                    let x = Instruction::PrintReg(reg);
                    instructions.push(x);
                    proof {
                        lemma_step(bytes@, i as int, prev, x, i + 2);
                    }
                    i = i + 2;
                },
                None => {
                    return Err(DecodeError::InvalidRegister { offset: i + 1, value: bytes[i + 1] });
                },
            }
        } else if 0x10 <= op && op <= 0x12 {
            if n - i < 3 {
                return Err(DecodeError::Truncated { offset: i });
            }
            let offset = crate::utils::u8_to_i16(bytes[i + 1], bytes[i + 2]);
            let x = match op {
                0x10 => Instruction::Jump(offset),
                0x11 => Instruction::JumpTrue(offset),
                _ => Instruction::JumpFalse(offset),
            };
            instructions.push(x);
            proof {
                assert(x == jump_instr(op, offset));
                lemma_step(bytes@, i as int, prev, x, i + 3);
            }
            i = i + 3;
        } else {
            return Err(DecodeError::UnknownOpcode { offset: i, opcode: op });
        }
    }
    Ok(instructions)
}

/// Decoding at the start of one encoded instruction reads back exactly that
/// instruction and continues right after its wire image, whatever bytes
/// stand before and after it.
#[verifier::rlimit(100)]
proof fn lemma_decode_one(pre: Seq<u8>, x: Instruction, suffix: Seq<u8>)
    ensures
        ({
            let b = pre + x.spec_encode() + suffix;
            spec_decode_from(b, pre.len() as int) == cons_result(
                x,
                spec_decode_from(b, pre.len() + x.spec_encode().len() as int),
            )
        }),
{
    let b = pre + x.spec_encode() + suffix;
    let i = pre.len() as int;
    assert(b.len() == pre.len() + x.spec_encode().len() + suffix.len());
    assert forall|k: int| 0 <= k < x.spec_encode().len() implies b[i + k] == x.spec_encode()[k] by {
        assert((pre + x.spec_encode())[i + k] == x.spec_encode()[k]);
    }
    match x {
        Instruction::Ret => {
            assert(b[i] == 0x00);
        },
        Instruction::PutReg(imm, reg) => {
            assert(b[i] == 0x01);
            assert(b[i + 1] == crate::utils::lo_byte(imm));
            assert(b[i + 2] == crate::utils::hi_byte(imm));
            assert(b[i + 3] == reg.ordinal() as u8);
            crate::register::lemma_reg_ordinal_roundtrip(reg);
            crate::utils::lemma_word_bytes_roundtrip(imm);
        },
        Instruction::CopySR(pos, reg) => {
            assert(b[i] == 0x02);
            assert(b[i + 3] == reg.ordinal() as u8);
            crate::register::lemma_reg_ordinal_roundtrip(reg);
            crate::utils::lemma_word_bytes_roundtrip(pos);
        },
        Instruction::CopyRS(reg, pos) => {
            assert(b[i] == 0x04);
            assert(b[i + 1] == reg.ordinal() as u8);
            crate::register::lemma_reg_ordinal_roundtrip(reg);
            crate::utils::lemma_word_bytes_roundtrip(pos);
        },
        Instruction::CopyRR(r1, r2) => {
            lemma_two_reg_case(b, i, 0x03, r1, r2);
        },
        Instruction::Add(r1, r2) => {
            lemma_two_reg_case(b, i, 0x05, r1, r2);
        },
        Instruction::Sub(r1, r2) => {
            lemma_two_reg_case(b, i, 0x06, r1, r2);
        },
        Instruction::Mul(r1, r2) => {
            lemma_two_reg_case(b, i, 0x07, r1, r2);
        },
        Instruction::Div(r1, r2) => {
            lemma_two_reg_case(b, i, 0x08, r1, r2);
        },
        Instruction::Eq(r1, r2) => {
            lemma_two_reg_case(b, i, 0x13, r1, r2);
        },
        Instruction::Neq(r1, r2) => {
            lemma_two_reg_case(b, i, 0x14, r1, r2);
        },
        Instruction::Lt(r1, r2) => {
            lemma_two_reg_case(b, i, 0x15, r1, r2);
        },
        Instruction::Lte(r1, r2) => {
            lemma_two_reg_case(b, i, 0x16, r1, r2);
        },
        Instruction::Gt(r1, r2) => {
            lemma_two_reg_case(b, i, 0x17, r1, r2);
        },
        Instruction::Gte(r1, r2) => {
            lemma_two_reg_case(b, i, 0x18, r1, r2);
        },
        Instruction::PrintReg(reg) => {
            assert(b[i] == 0x09);
            assert(b[i + 1] == reg.ordinal() as u8);
            crate::register::lemma_reg_ordinal_roundtrip(reg);
        },
        Instruction::Jump(offset) => {
            lemma_jump_case(b, i, 0x10, offset);
        },
        Instruction::JumpTrue(offset) => {
            lemma_jump_case(b, i, 0x11, offset);
        },
        Instruction::JumpFalse(offset) => {
            lemma_jump_case(b, i, 0x12, offset);
        },
    }
}

/// Shared facts for the two-register opcodes: both operand bytes read back
/// as the registers they serialize.
proof fn lemma_two_reg_case(b: Seq<u8>, i: int, op: u8, r1: Reg, r2: Reg)
    requires
        0 <= i,
        i + 3 <= b.len(),
        is_two_reg_op(op),
        b[i] == op,
        b[i + 1] == r1.ordinal() as u8,
        b[i + 2] == r2.ordinal() as u8,
    ensures
        spec_decode_from(b, i) == cons_result(
            two_reg_instr(op, r1, r2),
            spec_decode_from(b, i + 3),
        ),
{
    crate::register::lemma_reg_ordinal_roundtrip(r1);
    crate::register::lemma_reg_ordinal_roundtrip(r2);
}

/// Shared facts for the jump opcodes: the two operand bytes read back as the
/// signed offset they serialize.
proof fn lemma_jump_case(b: Seq<u8>, i: int, op: u8, offset: i16)
    requires
        0 <= i,
        i + 3 <= b.len(),
        0x10 <= op <= 0x12,
        b[i] == op,
        b[i + 1] == crate::utils::lo_byte(crate::utils::word_of_i16(offset)),
        b[i + 2] == crate::utils::hi_byte(crate::utils::word_of_i16(offset)),
    ensures
        spec_decode_from(b, i) == cons_result(jump_instr(op, offset), spec_decode_from(b, i + 3)),
{
    crate::utils::lemma_word_bytes_roundtrip(crate::utils::word_of_i16(offset));
    crate::utils::lemma_i16_word_roundtrip(offset);
}

/// Decoding the encoding of `instrs`, placed after any already-consumed
/// prefix, yields `instrs` again.
proof fn lemma_decode_encode_from(pre: Seq<u8>, instrs: Seq<Instruction>)
    ensures
        spec_decode_from(pre + spec_encode_seq(instrs), pre.len() as int) == Ok::<
            Seq<Instruction>,
            DecodeError,
        >(instrs),
    decreases instrs.len(),
{
    if instrs.len() == 0 {
        assert(pre + spec_encode_seq(instrs) =~= pre);
        assert(instrs =~= Seq::<Instruction>::empty());
    } else {
        let x = instrs[0];
        let rest = instrs.skip(1);
        let b = pre + spec_encode_seq(instrs);
        assert(spec_encode_seq(instrs) == x.spec_encode() + spec_encode_seq(rest));
        assert(b =~= pre + x.spec_encode() + spec_encode_seq(rest));
        lemma_decode_one(pre, x, spec_encode_seq(rest));
        lemma_decode_encode_from(pre + x.spec_encode(), rest);
        assert((pre + x.spec_encode()) + spec_encode_seq(rest) =~= b);
        assert(spec_decode_from(b, pre.len() + x.spec_encode().len() as int) == Ok::<
            Seq<Instruction>,
            DecodeError,
        >(rest));
        assert(seq![x] + rest =~= instrs);
    }
}

/// Round trip: the codec's two directions are mutual inverses. Decoding the
/// wire image of any instruction sequence succeeds and yields that sequence.
pub proof fn lemma_decode_encode(instrs: Seq<Instruction>)
    ensures
        spec_decode(spec_encode_seq(instrs)) == Ok::<Seq<Instruction>, DecodeError>(instrs),
{
    lemma_decode_encode_from(Seq::<u8>::empty(), instrs);
    assert(Seq::<u8>::empty() + spec_encode_seq(instrs) =~= spec_encode_seq(instrs));
}

/// Pushing a decoded instruction onto the prefix commutes with consing it
/// onto the suffix decode, which keeps the decoder's loop invariant.
proof fn lemma_step(
    b: Seq<u8>,
    i: int,
    prev: Seq<Instruction>,
    x: Instruction,
    next: int,
)
    requires
        spec_decode_from(b, i) == cons_result(x, spec_decode_from(b, next)),
    ensures
        prepend_result(prev, spec_decode_from(b, i)) == prepend_result(
            prev.push(x),
            spec_decode_from(b, next),
        ),
{
    match spec_decode_from(b, next) {
        Ok(s) => {
            assert(prev + (seq![x] + s) =~= prev.push(x) + s);
        },
        Err(_) => {},
    }
}

} // verus!
