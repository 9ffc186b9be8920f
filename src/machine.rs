//! The machine's data model: 12-bit words, addresses, instructions and their
//! binary encoding.

use vstd::prelude::*;

verus! {

/// Number of distinct 12-bit words.
pub const WORD_MODULUS: u16 = 4096;

/// Number of words in the machine's memory.
pub const MEMORY_SIZE: usize = 512;

/// A value fits in a 12-bit word.
pub open spec fn is_word(v: int) -> bool {
    0 <= v < 4096
}

/// Arithmetic on words wraps modulo 4096.
pub open spec fn wrap(v: int) -> int {
    v % 4096
}

/// `(a + b) mod 4096` on 12-bit words.
pub fn wrapping_add(a: u16, b: u16) -> (r: u16)
    requires
        is_word(a as int),
        is_word(b as int),
    ensures
        r as int == wrap(a + b),
        is_word(r as int),
{
    let s: u16 = a + b;
    if s >= WORD_MODULUS {
        s - WORD_MODULUS
    } else {
        s
    }
}

/// `(a - b) mod 4096` on 12-bit words.
pub fn wrapping_sub(a: u16, b: u16) -> (r: u16)
    requires
        is_word(a as int),
        is_word(b as int),
    ensures
        r as int == (a - b + 4096) % 4096,
        is_word(r as int),
{
    if a >= b {
        a - b
    } else {
        WORD_MODULUS - b + a
    }
}

/// A 12-bit address. Used as a memory index it selects word `value mod 512`.
#[derive(Clone, Copy, Debug, PartialEq, Eq, Structural)]
pub struct Address(pub u16);

impl Default for Address {
    fn default() -> (r: Address)
        ensures
            r.0 == 0,
    {
        Address(0)
    }
}

impl Address {
    /// The address holds a 12-bit value.
    pub open spec fn wf(self) -> bool {
        is_word(self.0 as int)
    }

    /// The memory cell this address selects: its low 9 bits.
    pub open spec fn slot(self) -> int {
        (self.0 % 512) as int
    }

    /// The memory cell this address selects.
    pub fn index(self) -> (r: usize)
        ensures
            r as int == self.slot(),
            r < MEMORY_SIZE,
    {
        let v: u16 = self.0;
        let m: u16 = v & 0x1ff;
        assert(m == v % 512) by (bit_vector)
            requires
                m == v & 0x1ff,
        ;
        m as usize
    }

    /// The address one past this one, wrapping modulo 4096.
    pub fn next(self) -> (r: Address)
        requires
            self.wf(),
        ensures
            r.wf(),
            r.0 as int == wrap(self.0 + 1),
    {
        Address(wrapping_add(self.0, 1))
    }

    /// This address advanced by `amount`, wrapping modulo 4096.
    pub fn offset(self, amount: u16) -> (r: Address)
        requires
            self.wf(),
            is_word(amount as int),
        ensures
            r.wf(),
            r.0 as int == wrap(self.0 + amount),
    {
        Address(wrapping_add(self.0, amount))
    }
}

/// An instruction of the machine. `A` is the operand type: a concrete
/// [`Address`] once assembled, or a symbolic operand while assembling.
#[derive(Clone, Copy, Debug, PartialEq, Eq, Structural)]
pub enum Instruction<A = Address> {
    Store { address: A },
    Load { address: A },
    Add { address: A },
    Branch { address: A },
    BranchIfZero { address: A },
    Clear,
    Decrease,
    Halt,
}

/// The opcode field of a word: bits 11 to 9.
pub open spec fn opcode_of(w: u16) -> int {
    ((w / 512) % 8) as int
}

/// The operand field of a word: bits 8 to 0.
pub open spec fn operand_of(w: u16) -> int {
    (w % 512) as int
}

impl<A> Instruction<A> {
    /// The fixed opcode of each instruction.
    pub open spec fn opcode(self) -> int {
        match self {
            Instruction::Store { .. } => 0,
            Instruction::Load { .. } => 1,
            Instruction::Add { .. } => 2,
            Instruction::Branch { .. } => 3,
            Instruction::BranchIfZero { .. } => 4,
            Instruction::Clear => 5,
            Instruction::Decrease => 6,
            Instruction::Halt => 7,
        }
    }

    /// The operand of an addressed instruction.
    pub open spec fn operand(self) -> Option<A> {
        match self {
            Instruction::Store { address } => Some(address),
            Instruction::Load { address } => Some(address),
            Instruction::Add { address } => Some(address),
            Instruction::Branch { address } => Some(address),
            Instruction::BranchIfZero { address } => Some(address),
            _ => None,
        }
    }
}

/// The instruction a word decodes to: the opcode table inverted, with the
/// low 9 bits as the operand.
pub open spec fn decode(w: u16) -> Instruction<Address> {
    let a = Address((w % 512) as u16);
    let op = opcode_of(w);
    if op == 0 {
        Instruction::Store { address: a }
    } else if op == 1 {
        Instruction::Load { address: a }
    } else if op == 2 {
        Instruction::Add { address: a }
    } else if op == 3 {
        Instruction::Branch { address: a }
    } else if op == 4 {
        Instruction::BranchIfZero { address: a }
    } else if op == 5 {
        Instruction::Clear
    } else if op == 6 {
        Instruction::Decrease
    } else {
        Instruction::Halt
    }
}

/// The word an instruction encodes to: `(opcode << 9) | (address & 0o777)`,
/// and `opcode << 9` for the instructions without operand.
pub open spec fn encode(i: Instruction<Address>) -> u16 {
    match i.operand() {
        Some(a) => (i.opcode() * 512 + a.slot()) as u16,
        None => (i.opcode() * 512) as u16,
    }
}

impl Instruction<Address> {
    /// The word this instruction encodes to.
    pub fn encode(&self) -> (r: u16)
        ensures
            r == encode(*self),
            is_word(r as int),
    {
        match *self {
            Instruction::Store { address } => address.index() as u16,
            Instruction::Load { address } => 512 + address.index() as u16,
            Instruction::Add { address } => 1024 + address.index() as u16,
            Instruction::Branch { address } => 1536 + address.index() as u16,
            Instruction::BranchIfZero { address } => 2048 + address.index() as u16,
            Instruction::Clear => 2560,
            Instruction::Decrease => 3072,
            Instruction::Halt => 3584,
        }
    }
}

/// The mnemonic that shows an instruction with the given opcode.
pub open spec fn mnemonic_name(op: int) -> Seq<char> {
    if op == 0 {
        "ST"@
    } else if op == 1 {
        "LD"@
    } else if op == 2 {
        "ADD"@
    } else if op == 3 {
        "BR"@
    } else if op == 4 {
        "BZ"@
    } else if op == 5 {
        "CLR"@
    } else if op == 6 {
        "DEC"@
    } else {
        "HALT"@
    }
}

impl<A> Instruction<A> {
    /// The upper-case mnemonic that shows this instruction.
    pub fn mnemonic(&self) -> (r: &'static str)
        ensures
            r@ == mnemonic_name(self.opcode()),
    {
        match self {
            Instruction::Store { .. } => "ST",
            Instruction::Load { .. } => "LD",
            Instruction::Add { .. } => "ADD",
            Instruction::Branch { .. } => "BR",
            Instruction::BranchIfZero { .. } => "BZ",
            Instruction::Clear => "CLR",
            Instruction::Decrease => "DEC",
            Instruction::Halt => "HALT",
        }
    }
}

impl From<u16> for Instruction<Address> {
    fn from(w: u16) -> (r: Instruction<Address>) {
        let op: u16 = (w >> 9u16) & 7;
        let low: u16 = w & 0x1ff;
        assert(op == (w / 512) % 8 && low == w % 512) by (bit_vector)
            requires
                op == (w >> 9u16) & 7,
                low == w & 0x1ff,
        ;
        let a = Address(low);
        if op == 0 {
            Instruction::Store { address: a }
        } else if op == 1 {
            Instruction::Load { address: a }
        } else if op == 2 {
            Instruction::Add { address: a }
        } else if op == 3 {
            Instruction::Branch { address: a }
        } else if op == 4 {
            Instruction::BranchIfZero { address: a }
        } else if op == 5 {
            Instruction::Clear
        } else if op == 6 {
            Instruction::Decrease
        } else {
            Instruction::Halt
        }
    }
}

impl vstd::std_specs::convert::FromSpecImpl<u16> for Instruction<Address> {
    open spec fn obeys_from_spec() -> bool {
        true
    }

    open spec fn from_spec(w: u16) -> Instruction<Address> {
        decode(w)
    }
}

/// Decoding a word and encoding the result gives the word back, for every
/// 12-bit word whose operand bits are zero wherever the opcode takes no
/// operand.
pub proof fn lemma_encode_decode(w: u16)
    requires
        is_word(w as int),
        opcode_of(w) < 5 || operand_of(w) == 0,
    ensures
        encode(decode(w)) == w,
{
}

/// The machine's memory: 512 words, zero by default.
#[derive(Clone, Debug, PartialEq, Eq)]
pub struct Memory(pub [u16; 512]);

impl Default for Memory {
    fn default() -> (r: Memory)
        ensures
            r.wf(),
            forall|i: int| 0 <= i < 512 ==> r.0@[i] == 0,
    {
        Memory([0u16; 512])
    }
}

impl Memory {
    /// Every cell holds a 12-bit word.
    pub open spec fn wf(&self) -> bool {
        forall|i: int| 0 <= i < 512 ==> is_word(#[trigger] self.0@[i] as int)
    }

    /// The word at the cell that `a` selects.
    pub fn index(&self, a: Address) -> (r: u16)
        ensures
            r == self.0@[a.slot()],
    {
        self.0[a.index()]
    }

    /// Writes `v` into the cell that `a` selects.
    pub fn set(&mut self, a: Address, v: u16)
        ensures
            final(self).0@ == old(self).0@.update(a.slot(), v),
    {
        let i = a.index();
        self.0[i] = v;
        assert(final(self).0@ =~= old(self).0@.update(a.slot(), v));
    }

    /// The words of memory, from address 0 upwards.
    pub fn iter(&self) -> (r: std::slice::Iter<'_, u16>)
        ensures
            r == vstd::array::spec_array_iter(&self.0),
    {
        (&self.0).into_iter()
    }
}

} // verus!
