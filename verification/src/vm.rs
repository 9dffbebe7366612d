use vstd::prelude::*;

use crate::instruction::Instruction;
use crate::register::Reg;
use crate::utils::{REGISTER_COUNT, STACK_SIZE};

verus! {

/// A fatal condition raised by the interpreter. A faulted machine's state is
/// not guaranteed consistent and is not meant to be reused.
#[derive(Clone, Copy, Debug, PartialEq, Eq, Structural)]
pub enum ExecutionFault {
    /// A jump moved the instruction pointer below the start of the program.
    OutOfBounds,
    /// A `Div` met a zero divisor.
    DivisionByZero,
}

/// The machine as one step left it: still running, halted with an exit
/// status, or stopped by a fault. `Halted` and `Faulted` are terminal.
#[derive(Clone, Copy, Debug, PartialEq, Eq, Structural)]
pub enum Status {
    Running,
    Halted(u16),
    Faulted(ExecutionFault),
}

/// Mathematical image of the machine: register file, stack, instruction
/// pointer, condition flag, and everything printed so far, in order.
#[verifier::ext_equal]
pub struct VmView {
    pub regs: Seq<u16>,
    pub stack: Seq<u16>,
    pub ip: int,
    pub cond: bool,
    pub output: Seq<u16>,
}

impl VmView {
    /// Well-formedness: 16 registers, a full 65536-word stack, and an
    /// instruction pointer that never stands before the program's start.
    pub open spec fn wf(self) -> bool {
        &&& self.regs.len() == 16
        &&& self.stack.len() == 65536
        &&& self.ip >= 0
    }
}

/// 16-bit wrapping addition.
pub open spec fn wrap_add(a: u16, b: u16) -> u16 {
    ((a + b) % 65536) as u16
}

/// 16-bit wrapping subtraction.
pub open spec fn wrap_sub(a: u16, b: u16) -> u16 {
    ((a - b + 65536) % 65536) as u16
}

/// 16-bit wrapping multiplication.
pub open spec fn wrap_mul(a: u16, b: u16) -> u16 {
    ((a * b) % 65536) as u16
}

/// The state every run starts from: registers and stack all zero, the
/// instruction pointer at the first instruction, the condition flag clear,
/// nothing printed yet.
pub open spec fn init_view() -> VmView {
    VmView {
        regs: Seq::new(16, |i: int| 0u16),
        stack: Seq::new(65536, |i: int| 0u16),
        ip: 0,
        cond: false,
        output: Seq::empty(),
    }
}

/// Continues running with a fresh register file.
pub open spec fn step_regs(s: VmView, regs: Seq<u16>) -> (Status, VmView) {
    (Status::Running, VmView { regs: regs, ip: s.ip + 1, ..s })
}

/// Continues running with a fresh condition flag.
pub open spec fn step_cond(s: VmView, cond: bool) -> (Status, VmView) {
    (Status::Running, VmView { cond: cond, ip: s.ip + 1, ..s })
}

/// A relative jump. The offset counts instructions and is applied in place
/// of the default advance: a taken jump of offset 0 lands on the following
/// instruction. A target before the program's start is a fault; a target at
/// or past its end parks the instruction pointer at the end, which
/// terminates the run without error.
pub open spec fn spec_jump(s: VmView, len: int, offset: i16, taken: bool) -> (Status, VmView) {
    if !taken {
        (Status::Running, VmView { ip: s.ip + 1, ..s })
    } else {
        let t = s.ip + offset as int;
        if t < 0 {
            (Status::Faulted(ExecutionFault::OutOfBounds), s)
        } else if t + 1 > len {
            (Status::Running, VmView { ip: len, ..s })
        } else {
            (Status::Running, VmView { ip: t + 1, ..s })
        }
    }
}

/// The machine's step relation: what one instruction does to the state.
///
/// The instruction pointer past the end of the program halts the run with
/// exit status 0; `Ret` halts it with the value of register `R0`. Arithmetic
/// writes into the second named register and wraps, except division, which
/// truncates and faults on a zero divisor. Comparisons set the condition
/// flag from the first operand compared to the second.
pub open spec fn spec_step(s: VmView, prog: Seq<Instruction>) -> (Status, VmView) {
    if s.ip < 0 || s.ip >= prog.len() {
        (Status::Halted(0), s)
    } else {
        match prog[s.ip] {
            Instruction::Ret => (Status::Halted(s.regs[0]), s),
            Instruction::Jump(offset) => spec_jump(s, prog.len() as int, offset, true),
            Instruction::JumpTrue(offset) => spec_jump(s, prog.len() as int, offset, s.cond),
            Instruction::JumpFalse(offset) => spec_jump(s, prog.len() as int, offset, !s.cond),
            _ => spec_exec_data(s, prog[s.ip]),
        }
    }
}

/// What one data instruction — everything but `Ret` and the jumps — does to
/// the state. `Ret` and the jumps never reach this function.
pub open spec fn spec_exec_data(s: VmView, instr: Instruction) -> (Status, VmView) {
    match instr {
        Instruction::PutReg(imm, reg) => step_regs(s, s.regs.update(reg.ordinal(), imm)),
        Instruction::CopySR(pos, reg) => step_regs(
            s,
            s.regs.update(reg.ordinal(), s.stack[pos as int]),
        ),
        Instruction::CopyRR(r1, r2) => step_regs(
            s,
            s.regs.update(r2.ordinal(), s.regs[r1.ordinal()]),
        ),
        Instruction::CopyRS(reg, pos) => (
            Status::Running,
            VmView { stack: s.stack.update(pos as int, s.regs[reg.ordinal()]), ip: s.ip + 1, ..s },
        ),
        Instruction::Add(r1, r2) => step_regs(
            s,
            s.regs.update(r2.ordinal(), wrap_add(s.regs[r2.ordinal()], s.regs[r1.ordinal()])),
        ),
        Instruction::Sub(r1, r2) => step_regs(
            s,
            s.regs.update(r2.ordinal(), wrap_sub(s.regs[r2.ordinal()], s.regs[r1.ordinal()])),
        ),
        Instruction::Mul(r1, r2) => step_regs(
            s,
            s.regs.update(r2.ordinal(), wrap_mul(s.regs[r2.ordinal()], s.regs[r1.ordinal()])),
        ),
        Instruction::Div(r1, r2) => {
            if s.regs[r1.ordinal()] == 0 {
                (Status::Faulted(ExecutionFault::DivisionByZero), s)
            } else {
                step_regs(
                    s,
                    s.regs.update(
                        r2.ordinal(),
                        (s.regs[r2.ordinal()] / s.regs[r1.ordinal()]) as u16,
                    ),
                )
            }
        },
        Instruction::PrintReg(reg) => (
            Status::Running,
            VmView { output: s.output.push(s.regs[reg.ordinal()]), ip: s.ip + 1, ..s },
        ),
        Instruction::Eq(r1, r2) => step_cond(s, s.regs[r1.ordinal()] == s.regs[r2.ordinal()]),
        Instruction::Neq(r1, r2) => step_cond(s, s.regs[r1.ordinal()] != s.regs[r2.ordinal()]),
        Instruction::Lt(r1, r2) => step_cond(s, s.regs[r1.ordinal()] < s.regs[r2.ordinal()]),
        Instruction::Lte(r1, r2) => step_cond(s, s.regs[r1.ordinal()] <= s.regs[r2.ordinal()]),
        Instruction::Gt(r1, r2) => step_cond(s, s.regs[r1.ordinal()] > s.regs[r2.ordinal()]),
        Instruction::Gte(r1, r2) => step_cond(s, s.regs[r1.ordinal()] >= s.regs[r2.ordinal()]),
        _ => (Status::Running, s),
    }
}

/// Repeats the step relation until it leaves `Running`, for at most `fuel`
/// steps. Total and deterministic: the same state, program and fuel always
/// give the same status and final state.
pub open spec fn spec_run(s: VmView, prog: Seq<Instruction>, fuel: nat) -> (Status, VmView)
    decreases fuel,
{
    if fuel == 0 {
        (Status::Running, s)
    } else {
        let stepped = spec_step(s, prog);
        if !(stepped.0 is Running) {
            stepped
        } else {
            spec_run(stepped.1, prog, (fuel - 1) as nat)
        }
    }
}

/// The execution engine. One machine owns its registers, stack, instruction
/// pointer, condition flag and output outright for the length of a run;
/// independent machines never share state.
pub struct VM {
    registers: Vec<u16>,
    stack: Vec<u16>,
    ip: usize,
    cond: bool,
    output: Vec<u16>,
}

impl View for VM {
    type V = VmView;

    closed spec fn view(&self) -> VmView {
        VmView {
            regs: self.registers@,
            stack: self.stack@,
            ip: self.ip as int,
            cond: self.cond,
            output: self.output@,
        }
    }
}

/// A vector of `n` zero words.
fn zero_words(n: usize) -> (v: Vec<u16>)
    ensures
        v@ == Seq::new(n as nat, |i: int| 0u16),
{
    let mut v: Vec<u16> = Vec::new();
    let mut i: usize = 0;
    while i < n
        invariant
            i <= n,
            v@ == Seq::new(i as nat, |k: int| 0u16),
        decreases n - i,
    {
        v.push(0);
        i = i + 1;
        proof {
            assert(v@ =~= Seq::new(i as nat, |k: int| 0u16));
        }
    }
    v
}

impl Default for VM {
    /// A fresh machine in the initial state.
    fn default() -> (r: VM)
        ensures
            r.wf(),
            r@ == init_view(),
    {
        let r = VM {
            registers: zero_words(REGISTER_COUNT),
            stack: zero_words(STACK_SIZE),
            ip: 0,
            cond: false,
            output: Vec::new(),
        };
        proof {
            assert(r@ =~= init_view());
        }
        r
    }
}

impl VM {
    /// Well-formedness of the machine's representation.
    pub open spec fn wf(self) -> bool {
        self@.wf()
    }

    /// Everything the machine has printed so far, in order.
    pub fn output(&self) -> (r: &Vec<u16>)
        ensures
            r@ == self@.output,
    {
        &self.output
    }

    /// A taken relative jump, shared by the three jump instructions.
    fn take_jump(&mut self, offset: i16, len: usize) -> (r: Status)
        requires
            old(self).wf(),
            old(self)@.ip < len,
        ensures
            final(self).wf(),
            (r, final(self)@) == spec_jump(old(self)@, len as int, offset, true),
    {
        if offset >= 0 {
            let off = offset as usize;
            if off >= len - self.ip {
                self.ip = len;
            } else {
                self.ip = self.ip + off + 1;
            }
            Status::Running
        } else {
            let mag = (-(offset as i32)) as usize;
            if mag > self.ip {
                Status::Faulted(ExecutionFault::OutOfBounds)
            } else {
                self.ip = self.ip - mag + 1;
                Status::Running
            }
        }
    }

    /// Executes the one instruction under the instruction pointer: exactly
    /// one step of the step relation. Exposed so that an embedding can add
    /// its own preemption around single steps.
    /// Executes the data instruction `instr`, which moves or prints a
    /// value: `PutReg`, `CopySR`, `CopyRR`, `CopyRS` or `PrintReg`.
    #[verifier::rlimit(60)]
    fn step_transfer(&mut self, instr: Instruction) -> (r: Status)
        requires
            old(self).wf(),
            old(self)@.ip < usize::MAX,
            instr is PutReg || instr is CopySR || instr is CopyRR || instr is CopyRS
                || instr is PrintReg,
        ensures
            final(self).wf(),
            (r, final(self)@) == spec_exec_data(old(self)@, instr),
    {
        match instr {
            Instruction::PutReg(imm, reg) => {
                let d = reg.to_u8() as usize;
                self.registers[d] = imm;
            },
            Instruction::CopySR(pos, reg) => {
                let d = reg.to_u8() as usize;
                self.registers[d] = self.stack[pos as usize];
            },
            Instruction::CopyRR(r1, r2) => {
                let v = self.registers[r1.to_u8() as usize];
                self.registers[r2.to_u8() as usize] = v;
            },
            Instruction::CopyRS(reg, pos) => {
                let v = self.registers[reg.to_u8() as usize];
                self.stack[pos as usize] = v;
            },
            _ => {
                let reg = match instr {
                    Instruction::PrintReg(reg) => reg,
                    _ => Reg::R0,
                };
                let v = self.registers[reg.to_u8() as usize];
                self.output.push(v);
            },
        }
        self.ip = self.ip + 1;
        Status::Running
    }

    /// Executes the arithmetic instruction `instr`: `Add`, `Sub` and `Mul`
    /// wrap; `Div` truncates and faults on a zero divisor.
    #[verifier::rlimit(100)]
    #[verifier::spinoff_prover]
    fn step_arith(&mut self, instr: Instruction) -> (r: Status)
        requires
            old(self).wf(),
            old(self)@.ip < usize::MAX,
            instr is Add || instr is Sub || instr is Mul || instr is Div,
        ensures
            final(self).wf(),
            (r, final(self)@) == spec_exec_data(old(self)@, instr),
    {
        match instr {
            Instruction::Add(r1, r2) => {
                let a = self.registers[r1.to_u8() as usize];
                let d = r2.to_u8() as usize;
                let b = self.registers[d];
                let sum: u32 = a as u32 + b as u32;
                self.registers[d] = (sum % 65536) as u16;
            },
            Instruction::Sub(r1, r2) => {
                let a = self.registers[r1.to_u8() as usize];
                let d = r2.to_u8() as usize;
                let b = self.registers[d];
                let diff: u32 = (b as u32 + 65536) - (a as u32);
                self.registers[d] = (diff % 65536) as u16;
            },
            Instruction::Mul(r1, r2) => {
                let a = self.registers[r1.to_u8() as usize];
                let d = r2.to_u8() as usize;
                let b = self.registers[d];
                proof {
                    assert(a as int * b as int <= 65535 * 65535) by (nonlinear_arith)
                        requires
                            a <= 65535,
                            b <= 65535,
                    ;
                }
                let prod: u32 = (a as u32) * (b as u32);
                self.registers[d] = (prod % 65536) as u16;
            },
            _ => {
                let (r1, r2) = match instr {
                    Instruction::Div(r1, r2) => (r1, r2),
                    _ => (Reg::R0, Reg::R0),
                };
                let a = self.registers[r1.to_u8() as usize];
                if a == 0 {
                    return Status::Faulted(ExecutionFault::DivisionByZero);
                }
                let d = r2.to_u8() as usize;
                let b = self.registers[d];
                self.registers[d] = b / a;
            },
        }
        self.ip = self.ip + 1;
        Status::Running
    }

    /// Executes the comparison instruction `instr`, setting the condition
    /// flag from the first operand compared to the second.
    #[verifier::rlimit(60)]
    fn step_compare(&mut self, instr: Instruction) -> (r: Status)
        requires
            old(self).wf(),
            old(self)@.ip < usize::MAX,
            instr is Eq || instr is Neq || instr is Lt || instr is Lte || instr is Gt
                || instr is Gte,
        ensures
            final(self).wf(),
            (r, final(self)@) == spec_exec_data(old(self)@, instr),
    {
        match instr {
            Instruction::Eq(r1, r2) => {
                self.cond = self.registers[r1.to_u8() as usize] == self.registers[r2.to_u8()
                    as usize];
            },
            Instruction::Neq(r1, r2) => {
                self.cond = self.registers[r1.to_u8() as usize] != self.registers[r2.to_u8()
                    as usize];
            },
            Instruction::Lt(r1, r2) => {
                self.cond = self.registers[r1.to_u8() as usize] < self.registers[r2.to_u8()
                    as usize];
            },
            Instruction::Lte(r1, r2) => {
                self.cond = self.registers[r1.to_u8() as usize] <= self.registers[r2.to_u8()
                    as usize];
            },
            Instruction::Gt(r1, r2) => {
                self.cond = self.registers[r1.to_u8() as usize] > self.registers[r2.to_u8()
                    as usize];
            },
            _ => {
                let (r1, r2) = match instr {
                    Instruction::Gte(r1, r2) => (r1, r2),
                    _ => (Reg::R0, Reg::R0),
                };
                self.cond = self.registers[r1.to_u8() as usize] >= self.registers[r2.to_u8()
                    as usize];
            },
        }
        self.ip = self.ip + 1;
        Status::Running
    }

    /// Executes the one instruction under the instruction pointer: exactly
    /// one step of the step relation. Exposed so that an embedding can add
    /// its own preemption around single steps.
    pub fn run_instruction(&mut self, instructions: &[Instruction]) -> (r: Status)
        requires
            old(self).wf(),
        ensures
            final(self).wf(),
            (r, final(self)@) == spec_step(old(self)@, instructions@),
    {
        let len = instructions.len();
        if self.ip >= len {
            return Status::Halted(0);
        }
        let instr = instructions[self.ip];
        match instr {
            Instruction::Ret => Status::Halted(self.registers[0]),
            Instruction::Jump(offset) => self.take_jump(offset, len),
            Instruction::JumpTrue(offset) => {
                if self.cond {
                    self.take_jump(offset, len)
                } else {
                    self.ip = self.ip + 1;
                    Status::Running
                }
            },
            Instruction::JumpFalse(offset) => {
                if !self.cond {
                    self.take_jump(offset, len)
                } else {
                    self.ip = self.ip + 1;
                    Status::Running
                }
            },
            Instruction::PutReg(..) | Instruction::CopySR(..) | Instruction::CopyRR(..)
                | Instruction::CopyRS(..) | Instruction::PrintReg(..) => self.step_transfer(instr),
            Instruction::Add(..) | Instruction::Sub(..) | Instruction::Mul(..)
                | Instruction::Div(..) => self.step_arith(instr),
            Instruction::Eq(..) | Instruction::Neq(..) | Instruction::Lt(..)
                | Instruction::Lte(..) | Instruction::Gt(..) | Instruction::Gte(..) => self
                .step_compare(instr),
        }
    }

    /// Runs from the current state until the program halts, faults, or the
    /// instruction pointer passes the end of the program, but for at most
    /// `fuel` steps: a budget makes every run finite, and a program that is
    /// still going when the budget ends answers `Running`. The result and
    /// the machine's final state are exactly those of iterating the step
    /// relation.
    pub fn run(&mut self, instructions: &[Instruction], fuel: u64) -> (r: Status)
        requires
            old(self).wf(),
        ensures
            final(self).wf(),
            (r, final(self)@) == spec_run(old(self)@, instructions@, fuel as nat),
    {
        let ghost s0 = self@;
        let mut remaining: u64 = fuel;
        loop
            invariant
                self.wf(),
                s0 == old(self)@,
                spec_run(s0, instructions@, fuel as nat) == spec_run(
                    self@,
                    instructions@,
                    remaining as nat,
                ),
            decreases remaining,
        {
            if remaining == 0 {
                return Status::Running;
            }
            let st = self.run_instruction(instructions);
            remaining = remaining - 1;
            match st {
                Status::Running => {},
                _ => {
                    return st;
                },
            }
        }
    }
}

/// Determinism: a completed run is unaffected by a larger step budget. Two
/// runs of the same program from the same state that both complete return
/// the same status — and with it the same printed output and exit status.
pub proof fn lemma_run_fuel_monotone(s: VmView, prog: Seq<Instruction>, f1: nat, f2: nat)
    requires
        !(spec_run(s, prog, f1).0 is Running),
        f1 <= f2,
    ensures
        spec_run(s, prog, f2) == spec_run(s, prog, f1),
    decreases f1,
{
    let stepped = spec_step(s, prog);
    if stepped.0 is Running {
        lemma_run_fuel_monotone(stepped.1, prog, (f1 - 1) as nat, (f2 - 1) as nat);
    }
}

} // verus!
