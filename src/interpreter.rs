//! The execution engine: one fetch-decode-execute cycle per call of
//! [`ExecutionContext::step`].

use std::collections::VecDeque;
use std::ops::ControlFlow;

use vstd::prelude::*;

use crate::machine::{decode, is_word, wrap, wrapping_add, wrapping_sub, Address, Instruction, Memory};

verus! {

/// How many recently written addresses the context remembers.
pub const HISTORY_DEPTH: usize = 5;

/// The registers, memory and write history of the machine, as values.
pub struct MachineState {
    pub acc: u16,
    pub pc: u16,
    pub ir: u16,
    pub memory: Seq<u16>,
    pub history: Seq<Address>,
}

/// The history after a write to `a`: `a` in front, the oldest entries
/// dropped beyond [`HISTORY_DEPTH`].
pub open spec fn record_write(history: Seq<Address>, a: Address) -> Seq<Address> {
    let h = seq![a] + history;
    if h.len() > HISTORY_DEPTH {
        h.take(HISTORY_DEPTH as int)
    } else {
        h
    }
}

/// One fetch-decode-execute cycle: the state after it, and whether the
/// fetched instruction was `Halt`.
pub open spec fn execute(s: MachineState) -> (MachineState, bool) {
    let ir = s.memory[(s.pc % 512) as int];
    let fetched = MachineState { ir, ..s };
    let next_pc = wrap(s.pc + 1) as u16;
    match decode(ir) {
        Instruction::Store { address } => (
            MachineState {
                memory: s.memory.update(address.slot(), s.acc),
                history: record_write(s.history, address),
                pc: next_pc,
                ..fetched
            },
            false,
        ),
        Instruction::Load { address } => (
            MachineState { acc: s.memory[address.slot()], pc: next_pc, ..fetched },
            false,
        ),
        Instruction::Add { address } => (
            MachineState {
                acc: wrap(s.acc + s.memory[address.slot()]) as u16,
                pc: next_pc,
                ..fetched
            },
            false,
        ),
        Instruction::Branch { address } => (MachineState { pc: address.0, ..fetched }, false),
        Instruction::BranchIfZero { address } => (
            MachineState { pc: if s.acc == 0 { address.0 } else { next_pc }, ..fetched },
            false,
        ),
        Instruction::Clear => (MachineState { acc: 0, pc: next_pc, ..fetched }, false),
        Instruction::Decrease => (
            MachineState { acc: wrap(s.acc + 4095) as u16, pc: next_pc, ..fetched },
            false,
        ),
        Instruction::Halt => (fetched, true),
    }
}

/// Registers, memory, and the most recently written addresses (most recent
/// first).
pub struct ExecutionContext {
    pub acc: u16,
    pub pc: Address,
    pub ir: u16,
    memory: Memory,
    last_modifications: VecDeque<Address>,
}

impl View for ExecutionContext {
    type V = MachineState;

    closed spec fn view(&self) -> MachineState {
        MachineState {
            acc: self.acc,
            pc: self.pc.0,
            ir: self.ir,
            memory: self.memory.0@,
            history: self.last_modifications@,
        }
    }
}

impl Default for ExecutionContext {
    fn default() -> (r: ExecutionContext)
        ensures
            r.wf(),
            r@.acc == 0 && r@.pc == 0 && r@.ir == 0,
            forall|i: int| 0 <= i < 512 ==> r@.memory[i] == 0,
            r@.history.len() == 0,
    {
        ExecutionContext {
            acc: 0,
            pc: Address(0),
            ir: 0,
            memory: Memory::default(),
            last_modifications: VecDeque::new(),
        }
    }
}

impl ExecutionContext {
    /// Registers hold 12-bit values, memory holds 12-bit words, and the
    /// history is within its depth.
    pub closed spec fn wf(&self) -> bool {
        &&& is_word(self.acc as int)
        &&& self.pc.wf()
        &&& is_word(self.ir as int)
        &&& self.memory.wf()
        &&& self.last_modifications@.len() <= HISTORY_DEPTH
    }

    /// Performs one fetch-decode-execute cycle. Returns `Break` when the
    /// fetched instruction is `Halt`, which leaves `pc` where it was.
    pub fn step(&mut self) -> (r: ControlFlow<(), ()>)
        requires
            old(self).wf(),
        ensures
            final(self).wf(),
            (final(self)@, r is Break) == execute(old(self)@),
    {
        self.ir = self.memory.index(self.pc);
        match Instruction::from(self.ir) {
            Instruction::Store { address } => {
                let acc = self.acc;
                self.set_addr(address, acc);
            },
            Instruction::Load { address } => {
                self.acc = self.memory.index(address);
            },
            Instruction::Add { address } => {
                self.acc = wrapping_add(self.acc, self.memory.index(address));
            },
            Instruction::Branch { address } => {
                self.pc = address;
                return ControlFlow::Continue(());
            },
            Instruction::BranchIfZero { address } => {
                if self.zero() {
                    self.pc = address;
                    return ControlFlow::Continue(());
                }
            },
            Instruction::Clear => {
                self.acc = 0;
            },
            Instruction::Decrease => {
                self.acc = wrapping_sub(self.acc, 1);
            },
            Instruction::Halt => {
                return ControlFlow::Break(());
            },
        }
        self.pc = self.pc.next();
        ControlFlow::Continue(())
    }

    /// Zeroes the accumulator, program counter and instruction register;
    /// memory and history stay.
    pub fn reset_registers(&mut self)
        requires
            old(self).wf(),
        ensures
            final(self).wf(),
            final(self)@ == (MachineState { acc: 0, pc: 0, ir: 0, ..old(self)@ }),
    {
        self.acc = 0;
        self.pc = Address(0);
        self.ir = 0;
    }

    /// The memory.
    pub fn memory(&self) -> (r: &Memory)
        ensures
            r.0@ == self@.memory,
            self.wf() ==> r.wf(),
    {
        &self.memory
    }

    /// Writes `val` at `addr` and records `addr` as the most recent write.
    pub fn set_addr(&mut self, addr: Address, val: u16)
        requires
            old(self).wf(),
            is_word(val as int),
        ensures
            final(self).wf(),
            final(self)@ == (MachineState {
                memory: old(self)@.memory.update(addr.slot(), val),
                history: record_write(old(self)@.history, addr),
                ..old(self)@
            }),
    {
        self.memory.set(addr, val);
        self.last_modifications.push_front(addr);
        self.last_modifications.truncate(HISTORY_DEPTH);
        assert(self.last_modifications@ =~= record_write(old(self)@.history, addr));
    }

    /// Replaces the whole memory and forgets the write history.
    pub fn set_memory(&mut self, mem: Memory)
        requires
            old(self).wf(),
            mem.wf(),
        ensures
            final(self).wf(),
            final(self)@ == (MachineState { memory: mem.0@, history: Seq::empty(), ..old(self)@ }),
    {
        self.memory = mem;
        self.last_modifications.clear();
    }

    /// The zero flag: whether the accumulator is 0.
    pub fn zero(&self) -> (r: bool)
        ensures
            r == (self@.acc == 0),
    {
        self.acc == 0
    }

    /// The most recently written addresses, most recent first.
    pub fn last_modifications(&self) -> (r: &VecDeque<Address>)
        ensures
            r@ == self@.history,
    {
        &self.last_modifications
    }
}

/// `BranchIfZero` transfers control to its operand exactly when the
/// accumulator is 0 as it executes; otherwise the program counter moves to
/// the next word. Nothing else changes but the instruction register.
pub proof fn lemma_branch_if_zero(s: MachineState, target: Address)
    requires
        decode(s.memory[(s.pc % 512) as int]) == (Instruction::BranchIfZero { address: target }),
    ensures
        execute(s).0.pc == (if s.acc == 0 {
            target.0
        } else {
            wrap(s.pc + 1) as u16
        }),
        !execute(s).1,
        execute(s).0.acc == s.acc,
        execute(s).0.memory == s.memory,
        execute(s).0.history == s.history,
{
}

} // verus!
