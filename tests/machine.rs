use std::ops::ControlFlow;

use simplez::interpreter::ExecutionContext;
use simplez::machine::{Address, Instruction, Memory};

fn context_with(words: &[(usize, u16)]) -> ExecutionContext {
    let mut mem = Memory::default();
    for (a, w) in words {
        mem.0[*a] = *w;
    }
    let mut ctx = ExecutionContext::default();
    ctx.set_memory(mem);
    ctx
}

#[test]
fn decode_then_encode_gives_word_back() {
    for w in 0u16..4096 {
        let op = w >> 9;
        if op < 5 || w & 0o777 == 0 {
            assert_eq!(Instruction::from(w).encode(), w);
        }
    }
}

#[test]
fn decode_drops_operand_bits_of_plain_instructions() {
    assert!(matches!(Instruction::from(0o5123), Instruction::Clear));
    assert_eq!(Instruction::from(0o5123).encode(), 0o5000);
}

#[test]
fn decode_table() {
    assert!(matches!(Instruction::from(0o0017), Instruction::Store { address: Address(0o17) }));
    assert!(matches!(Instruction::from(0o4777), Instruction::BranchIfZero { address: Address(511) }));
    assert!(matches!(Instruction::from(0o6000), Instruction::Decrease));
    assert!(matches!(Instruction::from(0o7777), Instruction::Halt));
}

#[test]
fn mnemonics_name_instructions() {
    assert_eq!(Instruction::from(0o1000).mnemonic(), "LD");
    assert_eq!(Instruction::from(0o7000).mnemonic(), "HALT");
    assert_eq!(Instruction::<Address>::Clear.mnemonic(), "CLR");
}

#[test]
fn memory_default_is_zero() {
    let m = Memory::default();
    assert_eq!(m.iter().count(), 512);
    assert!(m.iter().all(|w| *w == 0));
}

#[test]
fn memory_index_masks_address() {
    let mut m = Memory::default();
    m.set(Address(512 + 3), 9);
    assert_eq!(m.index(Address(3)), 9);
    assert_eq!(m.0[3], 9);
}

#[test]
fn add_wraps() {
    let mut ctx = context_with(&[(0, 0o2005), (5, 2)]);
    ctx.acc = 4095;
    assert_eq!(ctx.step(), ControlFlow::Continue(()));
    assert_eq!(ctx.acc, 1);
    assert_eq!(ctx.pc, Address(1));
}

#[test]
fn decrease_wraps() {
    let mut ctx = context_with(&[(0, 0o6000)]);
    ctx.step();
    assert_eq!(ctx.acc, 4095);
}

#[test]
fn branch_if_zero_taken() {
    let mut ctx = context_with(&[(0, 0o4010)]);
    ctx.step();
    assert_eq!(ctx.pc, Address(8));
}

#[test]
fn branch_if_zero_not_taken() {
    let mut ctx = context_with(&[(0, 0o4010)]);
    ctx.acc = 3;
    ctx.step();
    assert_eq!(ctx.pc, Address(1));
    assert!(!ctx.zero());
}

#[test]
fn branch_jumps() {
    let mut ctx = context_with(&[(0, 0o3007)]);
    ctx.step();
    assert_eq!(ctx.pc, Address(7));
    assert_eq!(ctx.ir, 0o3007);
}

#[test]
fn halt_keeps_pc() {
    let mut ctx = context_with(&[(0, 0o7000)]);
    assert_eq!(ctx.step(), ControlFlow::Break(()));
    assert_eq!(ctx.pc, Address(0));
    assert_eq!(ctx.ir, 0o7000);
}

#[test]
fn load_store_and_clear() {
    let mut ctx = context_with(&[(0, 0o1010), (1, 0o0011), (2, 0o5000), (8, 77)]);
    ctx.step();
    assert_eq!(ctx.acc, 77);
    ctx.step();
    assert_eq!(ctx.memory().0[9], 77);
    assert_eq!(ctx.last_modifications().iter().copied().collect::<Vec<_>>(), vec![Address(9)]);
    ctx.step();
    assert_eq!(ctx.acc, 0);
    assert!(ctx.zero());
}

#[test]
fn pc_wraps_at_word_size() {
    let mut ctx = context_with(&[(511, 0o5000)]);
    ctx.pc = Address(4095);
    ctx.step();
    assert_eq!(ctx.pc, Address(0));
}

#[test]
fn history_is_bounded_most_recent_first() {
    let mut ctx = ExecutionContext::default();
    for a in 0..7u16 {
        ctx.set_addr(Address(a), a);
    }
    let h: Vec<Address> = ctx.last_modifications().iter().copied().collect();
    assert_eq!(h, vec![Address(6), Address(5), Address(4), Address(3), Address(2)]);
    ctx.set_memory(Memory::default());
    assert!(ctx.last_modifications().is_empty());
}

#[test]
fn reset_registers_keeps_memory() {
    let mut ctx = context_with(&[(0, 0o1001), (1, 5)]);
    ctx.step();
    ctx.reset_registers();
    assert_eq!((ctx.acc, ctx.pc, ctx.ir), (0, Address(0), 0));
    assert_eq!(ctx.memory().0[1], 5);
}
