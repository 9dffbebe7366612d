use vm::assembler::{asm_to_instructions, instructions_to_asm, ParseError};
use vm::codec::{bytes_to_instructions, instruction_to_bytes, DecodeError};
use vm::instruction::Instruction;
use vm::register::Reg;
use vm::vm::{ExecutionFault, Status, VM};

fn all_variants() -> Vec<Instruction> {
    vec![
        Instruction::Ret,
        Instruction::PutReg(20, Reg::R0),
        Instruction::PutReg(65535, Reg::R15),
        Instruction::CopySR(7, Reg::R3),
        Instruction::CopyRR(Reg::R1, Reg::R2),
        Instruction::CopyRS(Reg::R4, 65535),
        Instruction::Add(Reg::R5, Reg::R6),
        Instruction::Sub(Reg::R7, Reg::R8),
        Instruction::Mul(Reg::R9, Reg::R10),
        Instruction::Div(Reg::R11, Reg::R12),
        Instruction::PrintReg(Reg::R13),
        Instruction::Jump(-5),
        Instruction::JumpTrue(0),
        Instruction::JumpFalse(32767),
        Instruction::Jump(-32768),
        Instruction::Eq(Reg::R14, Reg::R15),
        Instruction::Neq(Reg::R0, Reg::R1),
        Instruction::Lt(Reg::R2, Reg::R3),
        Instruction::Lte(Reg::R4, Reg::R5),
        Instruction::Gt(Reg::R6, Reg::R7),
        Instruction::Gte(Reg::R8, Reg::R9),
    ]
}

#[test]
fn encode_decode_roundtrip_all_variants() {
    let instructions = all_variants();
    let bytes = instruction_to_bytes(&instructions);
    let decoded = bytes_to_instructions(&bytes).unwrap();
    assert_eq!(decoded, instructions);
}

#[test]
fn encode_exact_bytes() {
    assert_eq!(Instruction::Ret.encode(), vec![0x00]);
    assert_eq!(
        Instruction::PutReg(0x1234, Reg::R5).encode(),
        vec![0x01, 0x34, 0x12, 5]
    );
    assert_eq!(
        Instruction::CopySR(7, Reg::R1).encode(),
        vec![0x02, 7, 0, 1]
    );
    assert_eq!(
        Instruction::CopyRR(Reg::R3, Reg::R4).encode(),
        vec![0x03, 3, 4]
    );
    assert_eq!(
        Instruction::CopyRS(Reg::R2, 0x0100).encode(),
        vec![0x04, 2, 0, 1]
    );
    assert_eq!(Instruction::Jump(-1).encode(), vec![0x10, 0xFF, 0xFF]);
    assert_eq!(Instruction::Jump(2).encode(), vec![0x10, 2, 0]);
    assert_eq!(
        Instruction::Gte(Reg::R8, Reg::R9).encode(),
        vec![0x18, 8, 9]
    );
}

#[test]
fn decode_unknown_opcode() {
    let r = bytes_to_instructions(&[0x1F]);
    assert!(matches!(r, Err(DecodeError::UnknownOpcode { .. })));
    assert_eq!(
        r,
        Err(DecodeError::UnknownOpcode {
            offset: 0,
            opcode: 0x1F
        })
    );
}

#[test]
fn decode_truncated_trailer() {
    let r = bytes_to_instructions(&[0x00, 0x01, 0x34]);
    assert_eq!(r, Err(DecodeError::Truncated { offset: 1 }));
}

#[test]
fn decode_invalid_register_byte() {
    let r = bytes_to_instructions(&[0x03, 0, 16]);
    assert_eq!(r, Err(DecodeError::InvalidRegister { offset: 2, value: 16 }));
}

#[test]
fn assemble_disassemble_roundtrip() {
    let instructions = all_variants();
    let lines = instructions_to_asm(&instructions);
    let text = lines.join("\n");
    let parsed = asm_to_instructions(&text).unwrap();
    assert_eq!(parsed, instructions);
}

#[test]
fn disassemble_exact_lines() {
    assert_eq!(Instruction::Ret.to_string(), "ret");
    assert_eq!(Instruction::PutReg(20, Reg::R0).to_string(), "putreg 20 R0");
    assert_eq!(
        Instruction::CopyRS(Reg::R4, 65535).to_string(),
        "copyrs R4 65535"
    );
    assert_eq!(Instruction::Jump(-5).to_string(), "jump -5");
    assert_eq!(
        Instruction::Gte(Reg::R8, Reg::R15).to_string(),
        "gte R8 R15"
    );
}

#[test]
fn assemble_unknown_mnemonic() {
    let r = asm_to_instructions("addx R0 R1");
    assert_eq!(r, Err(ParseError::UnknownMnemonic { line: 1 }));
}

#[test]
fn assemble_wrong_arity() {
    let r = asm_to_instructions("add R0");
    assert_eq!(r, Err(ParseError::WrongArity { line: 1 }));
}

#[test]
fn assemble_bad_operand() {
    let r = asm_to_instructions("putreg 70000 R0");
    assert_eq!(r, Err(ParseError::BadOperand { line: 1 }));
    let r2 = asm_to_instructions("add R16 R0");
    assert_eq!(r2, Err(ParseError::BadOperand { line: 1 }));
}

#[test]
fn assemble_comments_and_blank_lines() {
    let text = "# a comment\n\n  ret  \n# another";
    let parsed = asm_to_instructions(text).unwrap();
    assert_eq!(parsed, vec![Instruction::Ret]);
}

#[test]
fn assemble_error_line_number() {
    let text = "ret\n# fine\nbogus R0";
    let r = asm_to_instructions(text);
    assert_eq!(r, Err(ParseError::UnknownMnemonic { line: 3 }));
}

#[test]
fn run_condition_scenario() {
    let instructions = vec![
        Instruction::PutReg(20, Reg::R0),
        Instruction::PutReg(20, Reg::R1),
        Instruction::Eq(Reg::R0, Reg::R1),
        Instruction::JumpFalse(3),
        Instruction::PutReg(0, Reg::R0),
        Instruction::PrintReg(Reg::R0),
        Instruction::Jump(2),
        Instruction::PutReg(1, Reg::R0),
        Instruction::PrintReg(Reg::R0),
        Instruction::PutReg(0, Reg::R0),
        Instruction::Ret,
    ];
    let mut vm = VM::default();
    let status = vm.run(&instructions, 1000);
    assert_eq!(status, Status::Halted(0));
    assert_eq!(vm.output().clone(), vec![0]);
}

#[test]
fn run_loop_scenario() {
    let instructions = vec![
        Instruction::PutReg(0, Reg::R0),
        Instruction::PutReg(1, Reg::R1),
        Instruction::PutReg(5, Reg::R2),
        Instruction::Eq(Reg::R0, Reg::R2),
        Instruction::JumpTrue(3),
        Instruction::PrintReg(Reg::R0),
        Instruction::Add(Reg::R1, Reg::R0),
        Instruction::Jump(-5),
        Instruction::PutReg(0, Reg::R0),
        Instruction::Ret,
    ];
    let mut vm = VM::default();
    let status = vm.run(&instructions, 1000);
    assert_eq!(status, Status::Halted(0));
    assert_eq!(vm.output().clone(), vec![0, 1, 2, 3, 4]);
}

#[test]
fn run_division_by_zero() {
    let instructions = vec![
        Instruction::PutReg(5, Reg::R0),
        Instruction::PutReg(0, Reg::R1),
        Instruction::Div(Reg::R1, Reg::R0),
        Instruction::Ret,
    ];
    let mut vm = VM::default();
    let status = vm.run(&instructions, 1000);
    assert_eq!(status, Status::Faulted(ExecutionFault::DivisionByZero));
}

#[test]
fn run_jump_before_start_faults() {
    let instructions = vec![Instruction::Jump(-1)];
    let mut vm = VM::default();
    let status = vm.run(&instructions, 10);
    assert_eq!(status, Status::Faulted(ExecutionFault::OutOfBounds));
}

#[test]
fn run_off_end_halts() {
    let instructions = vec![Instruction::PutReg(9, Reg::R0)];
    let mut vm = VM::default();
    let status = vm.run(&instructions, 10);
    assert_eq!(status, Status::Halted(0));
    let mut empty_vm = VM::default();
    assert_eq!(empty_vm.run(&[], 10), Status::Halted(0));
}

#[test]
fn run_exit_status_from_r0() {
    let instructions = vec![Instruction::PutReg(42, Reg::R0), Instruction::Ret];
    let mut vm = VM::default();
    assert_eq!(vm.run(&instructions, 10), Status::Halted(42));
}

#[test]
fn run_stack_full_range() {
    let instructions = vec![
        Instruction::PutReg(7, Reg::R1),
        Instruction::CopyRS(Reg::R1, 65535),
        Instruction::CopySR(65535, Reg::R2),
        Instruction::PutReg(9, Reg::R3),
        Instruction::CopyRS(Reg::R3, 0),
        Instruction::CopySR(0, Reg::R4),
        Instruction::PrintReg(Reg::R2),
        Instruction::PrintReg(Reg::R4),
        Instruction::Ret,
    ];
    let mut vm = VM::default();
    assert_eq!(vm.run(&instructions, 100), Status::Halted(0));
    assert_eq!(vm.output().clone(), vec![7, 9]);
}

#[test]
fn run_wrapping_arithmetic() {
    let instructions = vec![
        Instruction::PutReg(65535, Reg::R0),
        Instruction::PutReg(2, Reg::R1),
        Instruction::Add(Reg::R1, Reg::R0),
        Instruction::PrintReg(Reg::R0),
        Instruction::PutReg(3, Reg::R2),
        Instruction::PutReg(1, Reg::R3),
        Instruction::Sub(Reg::R2, Reg::R3),
        Instruction::PrintReg(Reg::R3),
        Instruction::PutReg(40000, Reg::R4),
        Instruction::PutReg(3, Reg::R5),
        Instruction::Mul(Reg::R4, Reg::R5),
        Instruction::PrintReg(Reg::R5),
        Instruction::PutReg(17, Reg::R6),
        Instruction::PutReg(5, Reg::R7),
        Instruction::Div(Reg::R7, Reg::R6),
        Instruction::PrintReg(Reg::R6),
        Instruction::Ret,
    ];
    let mut vm = VM::default();
    // R0 holds the wrapped sum 1 when `Ret` runs, so that is the status.
    assert_eq!(vm.run(&instructions, 100), Status::Halted(1));
    // 65535 + 2 wraps to 1; 1 - 3 wraps to 65534; 3 * 40000 wraps to
    // 120000 - 65536 = 54464; 17 / 5 truncates to 3.
    assert_eq!(vm.output().clone(), vec![1, 65534, 54464, 3]);
}

#[test]
fn run_fuel_exhaustion_reports_running() {
    // A taken jump of -1 lands back on the jump itself: a tight spin.
    let spin = vec![Instruction::Jump(0), Instruction::Jump(-1)];
    let mut vm = VM::default();
    let status = vm.run(&spin, 1000);
    assert_eq!(status, Status::Running);
    let mut vm2 = VM::default();
    assert_eq!(vm2.run(&[Instruction::Ret], 0), Status::Running);
}

#[test]
fn run_deterministic() {
    let instructions = vec![
        Instruction::PutReg(3, Reg::R0),
        Instruction::PutReg(4, Reg::R1),
        Instruction::Mul(Reg::R0, Reg::R1),
        Instruction::PrintReg(Reg::R1),
        Instruction::Ret,
    ];
    let mut vm1 = VM::default();
    let s1 = vm1.run(&instructions, 50);
    let mut vm2 = VM::default();
    let s2 = vm2.run(&instructions, 50);
    assert_eq!(s1, s2);
    assert_eq!(vm1.output(), vm2.output());
    assert_eq!(s1, Status::Halted(3));
    assert_eq!(vm1.output().clone(), vec![12]);
}

#[test]
fn run_instruction_single_step() {
    let instructions = vec![Instruction::PutReg(8, Reg::R2), Instruction::Ret];
    let mut vm = VM::default();
    assert_eq!(vm.run_instruction(&instructions), Status::Running);
    assert_eq!(vm.run_instruction(&instructions), Status::Halted(0));
}

#[test]
fn register_byte_roundtrip() {
    for b in 0u8..16 {
        let reg = Reg::from_u8(b).unwrap();
        assert_eq!(reg.to_u8(), b);
    }
    assert_eq!(Reg::from_u8(16), None);
    assert_eq!(Reg::from_u8(255), None);
}

#[test]
fn assemble_signed_offsets_and_signs() {
    let parsed = asm_to_instructions("jump -32768\njumptrue +5\njumpfalse 0").unwrap();
    assert_eq!(
        parsed,
        vec![
            Instruction::Jump(-32768),
            Instruction::JumpTrue(5),
            Instruction::JumpFalse(0)
        ]
    );
    assert_eq!(
        asm_to_instructions("jump 32768"),
        Err(ParseError::BadOperand { line: 1 })
    );
    assert_eq!(
        asm_to_instructions("jump -32769"),
        Err(ParseError::BadOperand { line: 1 })
    );
}

#[test]
fn assembled_program_runs() {
    let text = "putreg 2 R0\nputreg 3 R1\nadd R0 R1\nprintreg R1\nputreg 0 R0\nret";
    let instructions = asm_to_instructions(text).unwrap();
    let bytes = instruction_to_bytes(&instructions);
    let decoded = bytes_to_instructions(&bytes).unwrap();
    assert_eq!(decoded, instructions);
    let mut vm = VM::default();
    assert_eq!(vm.run(&decoded, 100), Status::Halted(0));
    assert_eq!(vm.output().clone(), vec![5]);
}
