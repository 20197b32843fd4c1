//! The virtual machine: memory, registers, program counter and condition
//! codes, and what each instruction does to them.
use vstd::prelude::*;

use self::instructions::{lemma_decoded_is_well_formed, Instruction};

pub mod instructions;

verus! {

/// The number of words of memory: one for each 16-bit address.
pub const MEMORY_SIZE: usize = 0x10000;

/// The trap vector whose service routine stops the machine.
pub const TRAP_HALT: u16 = 0x25;

/// Why the machine refused to execute an instruction.
#[derive(Clone, Copy, Debug, PartialEq, Eq, Structural)]
pub enum Fault {
    /// The word holds the unassigned opcode.
    IllegalInstruction,
    /// RTI was met outside an interrupt: the machine only runs user code.
    PrivilegedInstruction,
}

/// What a machine holds, as plain values.
pub struct MachineState {
    /// One word for each address, from 0x0000 to 0xFFFF.
    pub memory: Seq<u16>,
    /// The registers R0 to R7.
    pub regs: Seq<u16>,
    /// The program counter.
    pub pc: u16,
    /// The last result that set the condition codes was negative.
    pub n: bool,
    /// The last result that set the condition codes was zero.
    pub z: bool,
    /// The last result that set the condition codes was positive.
    pub p: bool,
}

/// The sum of two words, wrapped to 16 bits.
pub open spec fn wrapping_sum(a: u16, b: u16) -> u16 {
    ((a + b) % 0x10000) as u16
}

impl MachineState {
    /// Memory and registers have their sizes, and at most one condition code
    /// is set.
    pub open spec fn wf(self) -> bool {
        &&& self.memory.len() == MEMORY_SIZE
        &&& self.regs.len() == 8
        &&& !(self.n && self.z)
        &&& !(self.n && self.p)
        &&& !(self.z && self.p)
    }

    /// The state of a machine that has just been made: everything is zero and
    /// no condition code is set.
    pub open spec fn zeroed() -> MachineState {
        MachineState {
            memory: Seq::new(MEMORY_SIZE as nat, |i: int| 0u16),
            regs: Seq::new(8, |i: int| 0u16),
            pc: 0,
            n: false,
            z: false,
            p: false,
        }
    }

    /// The state with `value` in register `reg`.
    pub open spec fn with_reg(self, reg: u16, value: u16) -> MachineState {
        MachineState { regs: self.regs.update(reg as int, value), ..self }
    }

    /// The state with `value` at `address`.
    pub open spec fn with_memory(self, address: u16, value: u16) -> MachineState {
        MachineState { memory: self.memory.update(address as int, value), ..self }
    }

    /// The state with the program counter at `pc`.
    pub open spec fn with_pc(self, pc: u16) -> MachineState {
        MachineState { pc, ..self }
    }

    /// The state with the condition codes set from `value` read as a signed
    /// number: N where its top bit is set, Z where it is zero, P otherwise.
    pub open spec fn with_flags(self, value: u16) -> MachineState {
        MachineState { n: value >= 0x8000, z: value == 0, p: 0 < value < 0x8000, ..self }
    }

    /// The state with `value` in register `reg` and the condition codes set
    /// from it.
    pub open spec fn load(self, reg: u16, value: u16) -> MachineState {
        self.with_reg(reg, value).with_flags(value)
    }

    /// Whether a branch on the conditions `n`, `z`, `p` is taken: one of those
    /// asked for is the condition code that is set.
    pub open spec fn branch_taken(self, n: bool, z: bool, p: bool) -> bool {
        (n && self.n) || (z && self.z) || (p && self.p)
    }

    /// The state after `instruction`, or the fault that it raises. ADD, AND,
    /// NOT and the loads but LEA set the condition codes from what they put
    /// in a register. A subroutine call saves the program counter in R7
    /// before it reads a base register, so that a call through R7 goes to
    /// the saved address. RTI is privileged, and the machine never is.
    pub open spec fn step(self, instruction: Instruction) -> Result<MachineState, Fault> {
        match instruction {
            Instruction::Add { dest, source_1, source_2 } => Ok(
                self.load(
                    dest,
                    wrapping_sum(self.regs[source_1 as int], self.regs[source_2 as int]),
                ),
            ),
            Instruction::AddImmediate { dest, source, value } => Ok(
                self.load(dest, wrapping_sum(self.regs[source as int], value)),
            ),
            Instruction::And { dest, source_1, source_2 } => Ok(
                self.load(dest, self.regs[source_1 as int] & self.regs[source_2 as int]),
            ),
            Instruction::AndImmediate { dest, source, value } => Ok(
                self.load(dest, self.regs[source as int] & value),
            ),
            Instruction::Not { dest, source } => Ok(self.load(dest, !self.regs[source as int])),
            Instruction::Ld { dest, pc_offset } => Ok(
                self.load(dest, self.memory[wrapping_sum(self.pc, pc_offset) as int]),
            ),
            Instruction::LdI { dest, pc_offset } => Ok(
                self.load(
                    dest,
                    self.memory[self.memory[wrapping_sum(self.pc, pc_offset) as int] as int],
                ),
            ),
            Instruction::LdR { dest, base, offset } => Ok(
                self.load(dest, self.memory[wrapping_sum(self.regs[base as int], offset) as int]),
            ),
            Instruction::Lea { dest, pc_offset } => Ok(
                self.with_reg(dest, wrapping_sum(self.pc, pc_offset)),
            ),
            Instruction::St { source, pc_offset } => Ok(
                self.with_memory(wrapping_sum(self.pc, pc_offset), self.regs[source as int]),
            ),
            Instruction::StI { source, pc_offset } => Ok(
                self.with_memory(
                    self.memory[wrapping_sum(self.pc, pc_offset) as int],
                    self.regs[source as int],
                ),
            ),
            Instruction::StR { source, base, offset } => Ok(
                self.with_memory(
                    wrapping_sum(self.regs[base as int], offset),
                    self.regs[source as int],
                ),
            ),
            Instruction::Br { n, z, p, pc_offset } => if self.branch_taken(n, z, p) {
                Ok(self.with_pc(wrapping_sum(self.pc, pc_offset)))
            } else {
                Ok(self)
            },
            Instruction::Jmp { base } => Ok(self.with_pc(self.regs[base as int])),
            Instruction::Ret => Ok(self.with_pc(self.regs[7])),
            Instruction::Jsr { pc_offset } => Ok(
                self.with_reg(7, self.pc).with_pc(wrapping_sum(self.pc, pc_offset)),
            ),
            Instruction::JsrR { base } => {
                let saved = self.with_reg(7, self.pc);
                Ok(saved.with_pc(saved.regs[base as int]))
            },
            Instruction::Trap { vec } => Ok(
                self.with_reg(7, self.pc).with_pc(self.memory[vec as int]),
            ),
            Instruction::Rti => Err(Fault::PrivilegedInstruction),
            Instruction::Illegal => Err(Fault::IllegalInstruction),
        }
    }

    /// The state in which a run over `words` ends, and the fault that ended
    /// it, if one did. The words are decoded and executed in order. The run
    /// ends after the last word, after a trap to `TRAP_HALT`, or before the
    /// first instruction that raises a fault, which leaves the state as it
    /// found it.
    pub open spec fn run(self, words: Seq<u16>) -> (MachineState, Option<Fault>)
        decreases words.len(),
    {
        if words.len() == 0 {
            (self, None)
        } else {
            let instruction = Instruction::spec_from(words[0]);
            match self.step(instruction) {
                Err(fault) => (self, Some(fault)),
                Ok(next) => if instruction == (Instruction::Trap { vec: TRAP_HALT }) {
                    (next, None)
                } else {
                    next.run(words.drop_first())
                },
            }
        }
    }
}

/// Every instruction leaves a valid state valid: memory and registers keep
/// their sizes, and at most one condition code is set.
pub proof fn lemma_step_keeps_state_valid(state: MachineState, instruction: Instruction)
    requires
        state.wf(),
        instruction.well_formed(),
    ensures
        state.step(instruction) matches Ok(next) ==> next.wf(),
{
}

/// A run leaves a valid state valid.
pub proof fn lemma_run_keeps_state_valid(state: MachineState, words: Seq<u16>)
    requires
        state.wf(),
    ensures
        state.run(words).0.wf(),
    decreases words.len(),
{
    if words.len() > 0 {
        let instruction = Instruction::spec_from(words[0]);
        lemma_decoded_is_well_formed(words[0]);
        lemma_step_keeps_state_valid(state, instruction);
        match state.step(instruction) {
            Ok(next) => {
                lemma_run_keeps_state_valid(next, words.drop_first());
            },
            Err(_) => {},
        }
    }
}

/// An LC-3 machine.
pub struct Machine {
    /// addressable memory from 0x0000 to 0xFFFF
    memory: Vec<u16>,
    /// general purpose registers
    regs: [u16; 8],
    /// program counter
    pc: u16,
    /// negative result condition code
    cc_neg: bool,
    /// zero result condition code
    cc_zero: bool,
    /// positive result condition code
    cc_pos: bool,
}

impl View for Machine {
    type V = MachineState;

    closed spec fn view(&self) -> MachineState {
        MachineState {
            memory: self.memory@,
            regs: self.regs@,
            pc: self.pc,
            n: self.cc_neg,
            z: self.cc_zero,
            p: self.cc_pos,
        }
    }
}

impl Machine {
    /// The machine holds a valid state.
    pub open spec fn wf(&self) -> bool {
        self@.wf()
    }

    /// A machine with every word of memory, every register and the program
    /// counter at zero, and no condition code set.
    pub fn new() -> (machine: Machine)
        ensures
            machine.wf(),
            machine@ == MachineState::zeroed(),
    {
        let machine = Machine {
            memory: vec![0u16; MEMORY_SIZE],
            regs: [0u16; 8],
            pc: 0,
            cc_neg: false,
            cc_zero: false,
            cc_pos: false,
        };
        assert(machine@.memory =~= MachineState::zeroed().memory);
        assert(machine@.regs =~= MachineState::zeroed().regs);
        machine
    }

    /// The value of register `reg`.
    pub fn get_reg(&self, reg: u16) -> (value: u16)
        requires
            self.wf(),
            reg < 8,
        ensures
            value == self@.regs[reg as int],
    {
        self.regs[reg as usize]
    }

    /// Puts `val` in register `reg`. The condition codes stay as they are.
    pub fn set_reg(&mut self, reg: u16, val: u16)
        requires
            old(self).wf(),
            reg < 8,
        ensures
            final(self).wf(),
            final(self)@ == old(self)@.with_reg(reg, val),
    {
        self.regs[reg as usize] = val;
    }

    /// The program counter.
    pub fn pc(&self) -> (pc: u16)
        ensures
            pc == self@.pc,
    {
        self.pc
    }

    /// The condition codes N, Z and P, in that order.
    pub fn condition_codes(&self) -> (codes: (bool, bool, bool))
        ensures
            codes == (self@.n, self@.z, self@.p),
    {
        (self.cc_neg, self.cc_zero, self.cc_pos)
    }

    /// The word of memory at `address`.
    pub fn read_memory(&self, address: u16) -> (value: u16)
        requires
            self.wf(),
        ensures
            value == self@.memory[address as int],
    {
        self.memory[address as usize]
    }

    /// Puts `value` in memory at `address`.
    pub fn write_memory(&mut self, address: u16, value: u16)
        requires
            old(self).wf(),
        ensures
            final(self).wf(),
            final(self)@ == old(self)@.with_memory(address, value),
    {
        self.memory.set(address as usize, value);
    }

    /// Puts `value` in register `reg` and sets the condition codes from it.
    fn load(&mut self, reg: u16, value: u16)
        requires
            old(self).wf(),
            reg < 8,
        ensures
            final(self).wf(),
            final(self)@ == old(self)@.load(reg, value),
    {
        self.regs[reg as usize] = value;
        self.cc_neg = value >= 0x8000;
        self.cc_zero = value == 0;
        self.cc_pos = 0 < value && value < 0x8000;
    }

    /// Executes one instruction. A fault leaves the machine as it was.
    pub fn execute(&mut self, instruction: Instruction) -> (outcome: Result<(), Fault>)
        requires
            old(self).wf(),
            instruction.well_formed(),
        ensures
            final(self).wf(),
            match old(self)@.step(instruction) {
                Ok(next) => outcome is Ok && final(self)@ == next,
                Err(fault) => outcome == Err::<(), Fault>(fault) && final(self)@ == old(self)@,
            },
    {
        match instruction {
            Instruction::Add { dest, source_1, source_2 } => {
                let value = self.get_reg(source_1).wrapping_add(self.get_reg(source_2));
                self.load(dest, value);
            },
            Instruction::AddImmediate { dest, source, value } => {
                let value = self.get_reg(source).wrapping_add(value);
                self.load(dest, value);
            },
            Instruction::And { dest, source_1, source_2 } => {
                let value = self.get_reg(source_1) & self.get_reg(source_2);
                self.load(dest, value);
            },
            Instruction::AndImmediate { dest, source, value } => {
                let value = self.get_reg(source) & value;
                self.load(dest, value);
            },
            Instruction::Not { dest, source } => {
                let value = !self.get_reg(source);
                self.load(dest, value);
            },
            Instruction::Ld { dest, pc_offset } => {
                let value = self.read_memory(self.pc.wrapping_add(pc_offset));
                self.load(dest, value);
            },
            Instruction::LdI { dest, pc_offset } => {
                let address = self.read_memory(self.pc.wrapping_add(pc_offset));
                let value = self.read_memory(address);
                self.load(dest, value);
            },
            Instruction::LdR { dest, base, offset } => {
                let value = self.read_memory(self.get_reg(base).wrapping_add(offset));
                self.load(dest, value);
            },
            Instruction::Lea { dest, pc_offset } => {
                let address = self.pc.wrapping_add(pc_offset);
                self.set_reg(dest, address);
            },
            Instruction::St { source, pc_offset } => {
                let value = self.get_reg(source);
                self.write_memory(self.pc.wrapping_add(pc_offset), value);
            },
            Instruction::StI { source, pc_offset } => {
                let address = self.read_memory(self.pc.wrapping_add(pc_offset));
                let value = self.get_reg(source);
                self.write_memory(address, value);
            },
            Instruction::StR { source, base, offset } => {
                let address = self.get_reg(base).wrapping_add(offset);
                let value = self.get_reg(source);
                self.write_memory(address, value);
            },
            Instruction::Br { n, z, p, pc_offset } => {
                if (n && self.cc_neg) || (z && self.cc_zero) || (p && self.cc_pos) {
                    self.pc = self.pc.wrapping_add(pc_offset);
                }
            },
            Instruction::Jmp { base } => {
                self.pc = self.get_reg(base);
            },
            Instruction::Ret => {
                self.pc = self.get_reg(7);
            },
            Instruction::Jsr { pc_offset } => {
                let return_address = self.pc;
                self.set_reg(7, return_address);
                self.pc = return_address.wrapping_add(pc_offset);
            },
            Instruction::JsrR { base } => {
                let return_address = self.pc;
                self.set_reg(7, return_address);
                self.pc = self.get_reg(base);
            },
            Instruction::Trap { vec } => {
                let return_address = self.pc;
                let routine = self.read_memory(vec);
                self.set_reg(7, return_address);
                self.pc = routine;
            },
            Instruction::Rti => {
                return Err(Fault::PrivilegedInstruction);
            },
            Instruction::Illegal => {
                return Err(Fault::IllegalInstruction);
            },
        }
        Ok(())
    }

    /// Decodes and executes `instructions` in order, up to the end, a trap to
    /// `TRAP_HALT` or the first fault.
    pub fn run(&mut self, instructions: &[u16]) -> (outcome: Result<(), Fault>)
        requires
            old(self).wf(),
        ensures
            final(self).wf(),
            final(self)@ == old(self)@.run(instructions@).0,
            outcome == match old(self)@.run(instructions@).1 {
                Some(fault) => Err::<(), Fault>(fault),
                None => Ok::<(), Fault>(()),
            },
    {
        let mut index: usize = 0;
        assert(instructions@.skip(0) =~= instructions@);
        while index < instructions.len()
            invariant
                self.wf(),
                index <= instructions.len(),
                old(self)@.run(instructions@) == self@.run(instructions@.skip(index as int)),
            decreases instructions.len() - index,
        {
            let ghost rest = instructions@.skip(index as int);
            assert(rest[0] == instructions@[index as int]);
            assert(rest.drop_first() == instructions@.skip(index + 1));
            let instruction = Instruction::from(instructions[index]);
            match self.execute(instruction) {
                Err(fault) => {
                    return Err(fault);
                },
                Ok(()) => {},
            }
            match instruction {
                Instruction::Trap { vec } => {
                    if vec == TRAP_HALT {
                        return Ok(());
                    }
                },
                _ => {},
            }
            index += 1;
        }
        Ok(())
    }
}

} // verus!
