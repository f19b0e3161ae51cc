//! A small CHIP-8 style CPU interpreter: sixteen 8-bit registers, 4 KiB
//! of memory, and a sixteen-deep call stack. Opcodes are 16-bit values
//! read big-endian from memory; the implemented ones are `0000` halt,
//! `00EE` return, `2nnn` call, and `8xy4` add-with-carry.

use vstd::prelude::*;
use vstd::pervasive::VecAdditionalExecFns;

verus! {

/// The number of opcodes `run` executes before giving up: a guaranteed
/// bound in place of a termination argument for arbitrary programs.
pub const RUN_STEPS: u64 = 0x1000000;

/// Why the interpreter stopped without reaching the halt opcode.
#[derive(Debug, Clone, Copy, PartialEq, Eq, Structural)]
pub enum CpuFault {
    /// A return opcode ran with an empty call stack.
    StackUnderflow,
    /// A call opcode ran with the call stack full.
    StackOverflow,
    /// An opcode the interpreter does not implement.
    UnknownOpcode { opcode: u16 },
    /// The program counter left the addressable memory.
    ProgramCounterOutOfRange,
    /// The step budget ran out before the program halted.
    OutOfSteps,
}

/// Everything an opcode can change: the registers, the program counter,
/// and the call stack with its pointer. (The memory is read-only to the
/// implemented opcodes, so it stands apart.)
#[verifier::ext_equal]
pub struct CpuState {
    pub regs: Seq<u8>,
    pub pc: int,
    pub stack: Seq<u16>,
    pub sp: int,
}

/// What one execution step does.
pub enum SpecStep {
    /// The halt opcode was fetched; execution stops in this state.
    Halt(CpuState),
    /// A fault; execution stops in this state.
    Fault(CpuFault, CpuState),
    /// An ordinary step to this state.
    Step(CpuState),
}

/// The 16-bit opcode stored big-endian at `pc`.
pub open spec fn spec_opcode(mem: Seq<u8>, pc: int) -> u16 {
    (mem[pc] * 256 + mem[pc + 1]) as u16
}

/// The registers after adding register `y` into register `x`: the sum
/// modulo 256 lands in `x`, and the carry flag lands in the last
/// register afterwards — so the flag wins when `x` is 15.
pub open spec fn spec_add_regs(regs: Seq<u8>, x: int, y: int) -> Seq<u8> {
    regs.update(x, ((regs[x] + regs[y]) % 256) as u8).update(
        15,
        if regs[x] + regs[y] >= 256 {
            1u8
        } else {
            0u8
        },
    )
}

/// One step of the interpreter: fetch the opcode at the program counter,
/// advance past it, and apply it.
pub open spec fn spec_step(mem: Seq<u8>, s: CpuState) -> SpecStep {
    if s.pc < 0 || s.pc >= 4095 {
        SpecStep::Fault(CpuFault::ProgramCounterOutOfRange, s)
    } else {
        let op = spec_opcode(mem, s.pc);
        let c = (op & 0xF000) >> 12;
        let x = (op & 0x0F00) >> 8;
        let y = (op & 0x00F0) >> 4;
        let d = op & 0x000F;
        let s2 = CpuState { pc: s.pc + 2, ..s };
        if c == 0 && x == 0 && y == 0 && d == 0 {
            SpecStep::Halt(s2)
        } else if c == 0 && x == 0 && y == 0xE && d == 0xE {
            if s2.sp == 0 {
                SpecStep::Fault(CpuFault::StackUnderflow, s2)
            } else {
                SpecStep::Step(
                    CpuState { sp: s2.sp - 1, pc: s2.stack[s2.sp - 1] as int, ..s2 },
                )
            }
        } else if c == 8 && d == 4 {
            SpecStep::Step(CpuState { regs: spec_add_regs(s2.regs, x as int, y as int), ..s2 })
        } else if c == 2 {
            if s2.sp >= 16 {
                SpecStep::Fault(CpuFault::StackOverflow, s2)
            } else {
                SpecStep::Step(
                    CpuState {
                        stack: s2.stack.update(s2.sp, s2.pc as u16),
                        sp: s2.sp + 1,
                        pc: (op & 0x0FFF) as int,
                        ..s2
                    },
                )
            }
        } else {
            SpecStep::Fault(CpuFault::UnknownOpcode { opcode: op }, s2)
        }
    }
}

/// Runs at most `fuel` steps from `s`: the result `run` reports, and the
/// state the machine stops in.
pub open spec fn spec_run(mem: Seq<u8>, s: CpuState, fuel: nat) -> (Result<(), CpuFault>, CpuState)
    decreases fuel,
{
    if fuel == 0 {
        (Err(CpuFault::OutOfSteps), s)
    } else {
        match spec_step(mem, s) {
            SpecStep::Halt(s2) => (Ok(()), s2),
            SpecStep::Fault(f, s2) => (Err(f), s2),
            SpecStep::Step(s2) => spec_run(mem, s2, (fuel - 1) as nat),
        }
    }
}

/// The interpreter state.
pub struct Chip8CPU {
    registers: Vec<u8>,
    program_counter: usize,
    memory: Vec<u8>,
    stack: Vec<u16>,
    stack_pointer: usize,
}

impl Chip8CPU {
    /// The sixteen registers.
    pub closed spec fn regs(&self) -> Seq<u8> {
        self.registers@
    }

    /// The 4 KiB of memory.
    pub closed spec fn mem(&self) -> Seq<u8> {
        self.memory@
    }

    /// The program counter.
    pub closed spec fn pc(&self) -> int {
        self.program_counter as int
    }

    /// The call stack.
    pub closed spec fn stack_view(&self) -> Seq<u16> {
        self.stack@
    }

    /// The stack pointer: the number of call frames in use.
    pub closed spec fn sp(&self) -> int {
        self.stack_pointer as int
    }

    /// The mutable machine state, as one value.
    pub closed spec fn state(&self) -> CpuState {
        CpuState {
            regs: self.registers@,
            pc: self.program_counter as int,
            stack: self.stack@,
            sp: self.stack_pointer as int,
        }
    }

    /// Sixteen registers, 4 KiB of memory, a sixteen-deep stack, and a
    /// stack pointer within it.
    pub closed spec fn wf(&self) -> bool {
        &&& self.registers@.len() == 16
        &&& self.memory@.len() == 4096
        &&& self.stack@.len() == 16
        &&& self.stack_pointer <= 16
    }

    /// A CPU with zeroed registers, memory and stack.
    pub fn new() -> (cpu: Chip8CPU)
        ensures
            cpu.wf(),
            cpu.pc() == 0,
            cpu.sp() == 0,
            cpu.regs() == Seq::new(16, |i: int| 0u8),
            cpu.mem() == Seq::new(4096, |i: int| 0u8),
            cpu.stack_view() == Seq::new(16, |i: int| 0u16),
    {
        let cpu = Chip8CPU {
            registers: vec![0u8; 16],
            program_counter: 0,
            memory: vec![0u8; 4096],
            stack: vec![0u16; 16],
            stack_pointer: 0,
        };
        proof {
            assert(cpu.registers@ =~= Seq::new(16, |i: int| 0u8));
            assert(cpu.memory@ =~= Seq::new(4096, |i: int| 0u8));
            assert(cpu.stack@ =~= Seq::new(16, |i: int| 0u16));
        }
        cpu
    }

    /// How `state` decomposes into the named views.
    pub proof fn lemma_state_view(&self)
        ensures
            self.state() == (CpuState {
                regs: self.regs(),
                pc: self.pc(),
                stack: self.stack_view(),
                sp: self.sp(),
            }),
    {
    }

    /// The sizes and bounds that well-formedness pins down.
    pub proof fn lemma_wf_bounds(&self)
        requires
            self.wf(),
        ensures
            self.regs().len() == 16,
            self.mem().len() == 4096,
            self.stack_view().len() == 16,
            0 <= self.pc(),
            0 <= self.sp() <= 16,
    {
    }

    /// Stores `v` in register `i`.
    pub fn write_register(&mut self, i: usize, v: u8)
        requires
            old(self).wf(),
            i < 16,
        ensures
            final(self).wf(),
            final(self).regs() == old(self).regs().update(i as int, v),
            final(self).mem() == old(self).mem(),
            final(self).pc() == old(self).pc(),
            final(self).stack_view() == old(self).stack_view(),
            final(self).sp() == old(self).sp(),
    {
        self.registers.set(i, v);
    }

    /// The value of register `i`.
    pub fn register(&self, i: usize) -> (r: u8)
        requires
            self.wf(),
            i < 16,
        ensures
            r == self.regs()[i as int],
    {
        self.registers[i]
    }

    /// Stores `v` at memory address `addr`.
    pub fn write_memory(&mut self, addr: usize, v: u8)
        requires
            old(self).wf(),
            addr < 4096,
        ensures
            final(self).wf(),
            final(self).mem() == old(self).mem().update(addr as int, v),
            final(self).regs() == old(self).regs(),
            final(self).pc() == old(self).pc(),
            final(self).stack_view() == old(self).stack_view(),
            final(self).sp() == old(self).sp(),
    {
        self.memory.set(addr, v);
    }

    /// The program counter.
    pub fn program_counter(&self) -> (r: usize)
        ensures
            r == self.pc(),
    {
        self.program_counter
    }

    /// The stack pointer.
    pub fn stack_pointer(&self) -> (r: usize)
        ensures
            r == self.sp(),
    {
        self.stack_pointer
    }

    /// Reads the 16-bit opcode at the program counter: the byte there is
    /// the high half, the byte after it the low half.
    pub fn read_opcode(&self) -> (op: u16)
        requires
            self.wf(),
            self.pc() + 1 < 4096,
        ensures
            op == self.mem()[self.pc()] * 256 + self.mem()[self.pc() + 1],
            op == spec_opcode(self.mem(), self.pc()),
    {
        let pc = self.program_counter;
        let op_byte1 = self.memory[pc] as u16;
        let op_byte2 = self.memory[pc + 1] as u16;
        let op = (op_byte1 << 8) | op_byte2;
        proof {
            assert(op_byte1 < 256 && op_byte2 < 256 ==> ((op_byte1 << 8) | op_byte2) == op_byte1
                * 256 + op_byte2) by (bit_vector);
        }
        op
    }

    /// Adds register `y` into register `x` modulo 256, recording in the
    /// last register whether the addition wrapped.
    pub fn add_xy(&mut self, x: u8, y: u8)
        requires
            old(self).wf(),
            x < 16,
            y < 16,
        ensures
            final(self).wf(),
            final(self).regs() == spec_add_regs(old(self).regs(), x as int, y as int),
            final(self).mem() == old(self).mem(),
            final(self).pc() == old(self).pc(),
            final(self).stack_view() == old(self).stack_view(),
            final(self).sp() == old(self).sp(),
    {
        let a = self.registers[x as usize];
        let b = self.registers[y as usize];
        let sum = a as u16 + b as u16;
        let val = (sum % 256) as u8;
        let overflow = sum > 255;
        self.registers.set(x as usize, val);
        if overflow {
            self.registers.set(15, 1);
        } else {
            self.registers.set(15, 0);
        }
    }

    /// Executes opcodes from the program counter until the halt opcode,
    /// a fault, or the step budget runs out: exactly `spec_run` over the
    /// starting state with `RUN_STEPS` of fuel. The memory is never
    /// written; a malformed program reports a fault instead of stopping
    /// the process.
    pub fn run(&mut self) -> (r: Result<(), CpuFault>)
        requires
            old(self).wf(),
        ensures
            final(self).wf(),
            final(self).mem() == old(self).mem(),
            ({
                let outcome = spec_run(old(self).mem(), old(self).state(), RUN_STEPS as nat);
                r == outcome.0 && final(self).state() == outcome.1
            }),
    {
        let mut steps: u64 = RUN_STEPS;
        loop
            invariant
                self.wf(),
                self.mem() == old(self).mem(),
                steps <= RUN_STEPS,
                spec_run(old(self).mem(), old(self).state(), RUN_STEPS as nat) == spec_run(
                    self.mem(),
                    self.state(),
                    steps as nat,
                ),
            decreases steps,
        {
            if steps == 0 {
                return Err(CpuFault::OutOfSteps);
            }
            steps = steps - 1;
            let ghost pre = self.state();
            let ghost fuel: nat = steps as nat + 1;
            if self.program_counter >= 4095 {
                proof {
                    assert(spec_step(self.mem(), pre) == SpecStep::Fault(
                        CpuFault::ProgramCounterOutOfRange,
                        pre,
                    ));
                }
                return Err(CpuFault::ProgramCounterOutOfRange);
            }
            let opcode = self.read_opcode();
            self.program_counter += 2;
            let ghost s2 = CpuState { pc: pre.pc + 2, ..pre };
            proof {
                assert(self.state() =~= s2);
                assert((opcode & 0xF000) >> 12 < 16 && (opcode & 0x0F00) >> 8 < 16 && (opcode
                    & 0x00F0) >> 4 < 16 && (opcode & 0x000F) < 16 && (opcode & 0x0FFF) < 4096)
                    by (bit_vector);
            }
            let c = ((opcode & 0xF000) >> 12) as u8;
            let x = ((opcode & 0x0F00) >> 8) as u8;
            let y = ((opcode & 0x00F0) >> 4) as u8;
            let d = (opcode & 0x000F) as u8;
            match (c, x, y, d) {
                (0, 0, 0, 0) => {
                    proof {
                        assert(spec_step(self.mem(), pre) == SpecStep::Halt(s2));
                    }
                    return Ok(());
                }
                (0, 0, 0xE, 0xE) => {
                    if self.stack_pointer == 0 {
                        proof {
                            assert(spec_step(self.mem(), pre) == SpecStep::Fault(
                                CpuFault::StackUnderflow,
                                s2,
                            ));
                        }
                        return Err(CpuFault::StackUnderflow);
                    }
                    self.stack_pointer -= 1;
                    let previous = self.stack[self.stack_pointer];
                    self.program_counter = previous as usize;
                    proof {
                        let s3 = (CpuState {
                            sp: s2.sp - 1,
                            pc: s2.stack[s2.sp - 1] as int,
                            ..s2
                        });
                        assert(self.state() =~= s3);
                        assert(spec_step(self.mem(), pre) == SpecStep::Step(s3));
                        assert(spec_run(self.mem(), pre, fuel) == spec_run(
                            self.mem(),
                            s3,
                            steps as nat,
                        ));
                    }
                }
                (8, _, _, 4) => {
                    self.add_xy(x, y);
                    proof {
                        let s3 = (CpuState {
                            regs: spec_add_regs(s2.regs, x as int, y as int),
                            ..s2
                        });
                        assert(self.state() =~= s3);
                        assert(spec_step(self.mem(), pre) == SpecStep::Step(s3));
                        assert(spec_run(self.mem(), pre, fuel) == spec_run(
                            self.mem(),
                            s3,
                            steps as nat,
                        ));
                    }
                }
                (2, _, _, _) => {
                    if self.stack_pointer >= 16 {
                        proof {
                            assert(spec_step(self.mem(), pre) == SpecStep::Fault(
                                CpuFault::StackOverflow,
                                s2,
                            ));
                        }
                        return Err(CpuFault::StackOverflow);
                    }
                    self.stack.set(self.stack_pointer, self.program_counter as u16);
                    self.stack_pointer += 1;
                    self.program_counter = (opcode & 0x0FFF) as usize;
                    proof {
                        let s3 = (CpuState {
                            stack: s2.stack.update(s2.sp, s2.pc as u16),
                            sp: s2.sp + 1,
                            pc: (opcode & 0x0FFF) as int,
                            ..s2
                        });
                        assert(self.state() =~= s3);
                        assert(spec_step(self.mem(), pre) == SpecStep::Step(s3));
                        assert(spec_run(self.mem(), pre, fuel) == spec_run(
                            self.mem(),
                            s3,
                            steps as nat,
                        ));
                    }
                }
                _ => {
                    proof {
                        assert(spec_step(self.mem(), pre) == SpecStep::Fault(
                            CpuFault::UnknownOpcode { opcode },
                            s2,
                        ));
                    }
                    return Err(CpuFault::UnknownOpcode { opcode });
                }
            }
        }
    }
}

} // verus!
