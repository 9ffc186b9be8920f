//! The two-pass assembler: pass one gives each label an address, pass two
//! encodes the lines into a memory image.

use vstd::prelude::*;
use vstd::string::StringSliceAdditionalSpecFns;

use crate::machine::{encode, is_word, wrap, Address, Instruction, Memory};
use crate::syntax::{
    lemma_program_wf, lemma_text_of, line_wf, lines_view, program_of, reports, scan_program,
    AssemblyLine, Command, CommandModel, Direction, Directive, Error, ErrorKind, Fault, LineModel,
    Operand,
};
use crate::text::suffix;

verus! {

broadcast use vstd::seq::group_seq_axioms;

/// A symbol table: labels with their addresses, in order of definition.
pub type Symbols = Seq<(Seq<u8>, u16)>;

/// The address of label `n`, if the table holds it.
pub open spec fn lookup(t: Symbols, n: Seq<u8>) -> Option<u16>
    decreases t.len(),
{
    if t.len() == 0 {
        None
    } else if t.last().0 == n {
        Some(t.last().1)
    } else {
        lookup(t.drop_last(), n)
    }
}

/// The location counter after a line with command `c`: `org` sets it,
/// `res` adds its amount, an instruction or `data` adds one, and `end` and
/// lines without command leave it.
pub open spec fn advance(counter: u16, c: Option<CommandModel>) -> u16 {
    match c {
        Some(CommandModel::Directive(Directive::Org { address })) => address.0,
        Some(CommandModel::Directive(Directive::Reserve { amount })) => wrap(
            counter + amount,
        ) as u16,
        Some(CommandModel::Directive(Directive::End)) => counter,
        Some(_) => wrap(counter + 1) as u16,
        None => counter,
    }
}

/// The location counter after `lines`, starting from 0.
pub open spec fn counter_after(lines: Seq<LineModel>) -> u16
    decreases lines.len(),
{
    if lines.len() == 0 {
        0
    } else {
        advance(counter_after(lines.drop_last()), lines.last().command)
    }
}

/// Pass one: each label with the location counter of its line, or the
/// first label that is defined twice.
pub open spec fn symbols(lines: Seq<LineModel>) -> Result<Symbols, Seq<u8>>
    decreases lines.len(),
{
    if lines.len() == 0 {
        Ok(seq![])
    } else {
        match symbols(lines.drop_last()) {
            Err(n) => Err(n),
            Ok(t) => match lines.last().label {
                None => Ok(t),
                Some(n) => if lookup(t, n) is Some {
                    Err(n)
                } else {
                    Ok(t.push((n, counter_after(lines.drop_last()))))
                },
            },
        }
    }
}

/// An operand resolved against the table, or the undefined label.
pub open spec fn resolve(d: Operand, t: Symbols) -> Result<Address, Seq<u8>> {
    match d {
        Operand::Address(a) => Ok(a),
        Operand::Label(n) => match lookup(t, n) {
            Some(a) => Ok(Address(a)),
            None => Err(n),
        },
    }
}

/// An instruction with its operand resolved.
pub open spec fn resolved(i: Instruction<Operand>, t: Symbols) -> Result<Instruction<Address>, Seq<u8>> {
    match i {
        Instruction::Store { address } => match resolve(address, t) {
            Ok(a) => Ok(Instruction::Store { address: a }),
            Err(n) => Err(n),
        },
        Instruction::Load { address } => match resolve(address, t) {
            Ok(a) => Ok(Instruction::Load { address: a }),
            Err(n) => Err(n),
        },
        Instruction::Add { address } => match resolve(address, t) {
            Ok(a) => Ok(Instruction::Add { address: a }),
            Err(n) => Err(n),
        },
        Instruction::Branch { address } => match resolve(address, t) {
            Ok(a) => Ok(Instruction::Branch { address: a }),
            Err(n) => Err(n),
        },
        Instruction::BranchIfZero { address } => match resolve(address, t) {
            Ok(a) => Ok(Instruction::BranchIfZero { address: a }),
            Err(n) => Err(n),
        },
        Instruction::Clear => Ok(Instruction::Clear),
        Instruction::Decrease => Ok(Instruction::Decrease),
        Instruction::Halt => Ok(Instruction::Halt),
    }
}

/// The state of pass two: location counter, memory so far, and whether
/// `end` was met.
pub struct Image {
    pub counter: u16,
    pub memory: Seq<u16>,
    pub ended: bool,
}

/// The memory image before any line: 512 zero words.
pub open spec fn blank_memory() -> Seq<u16> {
    Seq::new(512, |i: int| 0u16)
}

/// Pass two on one line: instructions and `data` write a word at the
/// location counter; after `end` nothing changes.
pub open spec fn emit(st: Image, l: LineModel, t: Symbols) -> Result<Image, Seq<u8>> {
    if st.ended {
        Ok(st)
    } else {
        let at = Address(st.counter).slot();
        let next = wrap(st.counter + 1) as u16;
        match l.command {
            None => Ok(st),
            Some(CommandModel::Instruction(i)) => match resolved(i, t) {
                Ok(ia) => Ok(
                    Image { counter: next, memory: st.memory.update(at, encode(ia)), ended: false },
                ),
                Err(n) => Err(n),
            },
            Some(CommandModel::Directive(Directive::Data { value })) => Ok(
                Image { counter: next, memory: st.memory.update(at, value), ended: false },
            ),
            Some(CommandModel::Directive(Directive::End)) => Ok(Image { ended: true, ..st }),
            Some(c) => Ok(Image { counter: advance(st.counter, Some(c)), ..st }),
        }
    }
}

/// Pass two over `lines`, or the first undefined label it meets.
pub open spec fn image_of(lines: Seq<LineModel>, t: Symbols) -> Result<Image, Seq<u8>>
    decreases lines.len(),
{
    if lines.len() == 0 {
        Ok(Image { counter: 0, memory: blank_memory(), ended: false })
    } else {
        match image_of(lines.drop_last(), t) {
            Err(n) => Err(n),
            Ok(st) => emit(st, lines.last(), t),
        }
    }
}

/// The memory that `lines` assemble to, or why they do not.
pub open spec fn assembled(lines: Seq<LineModel>) -> Result<Seq<u16>, Fault> {
    match symbols(lines) {
        Err(n) => Err(Fault::RedefinedLabel(n)),
        Ok(t) => match image_of(lines, t) {
            Err(n) => Err(Fault::UndefinedLabel(n)),
            Ok(st) => Ok(st.memory),
        },
    }
}

/// The memory that source bytes `s` assemble to, or the fault and where
/// it was found. Label errors are reported at the start of the source.
pub open spec fn assembly_of(s: Seq<u8>) -> Result<Seq<u16>, (Fault, int)> {
    match program_of(s) {
        Err(x) => Err(x),
        Ok(lines) => match assembled(lines) {
            Ok(m) => Ok(m),
            Err(f) => Err((f, 0)),
        },
    }
}

/// The table as values.
pub open spec fn table_view(t: Seq<(&str, Address)>) -> Symbols {
    t.map_values(|e: (&str, Address)| (e.0.spec_bytes(), e.1.0))
}

/// Whether two texts have the same bytes.
fn same_text(a: &str, b: &str) -> (r: bool)
    ensures
        r == (a.spec_bytes() == b.spec_bytes()),
{
    let x = a.as_bytes();
    let y = b.as_bytes();
    if x.len() != y.len() {
        return false;
    }
    let mut i: usize = 0;
    while i < x.len()
        invariant
            x@ == a.spec_bytes(),
            y@ == b.spec_bytes(),
            x@.len() == y@.len(),
            0 <= i <= x@.len(),
            forall|k: int| 0 <= k < i ==> x@[k] == y@[k],
        decreases x@.len() - i,
    {
        if x[i] != y[i] {
            return false;
        }
        i = i + 1;
    }
    assert(x@ =~= y@);
    true
}

/// The address of label `name` in the table.
fn find_label(t: &Vec<(&str, Address)>, name: &str) -> (r: Option<Address>)
    ensures
        lookup(table_view(t@), name.spec_bytes()) == match r {
            Some(a) => Some(a.0),
            None => None,
        },
{
    let mut i = t.len();
    assert(t@.take(i as int) =~= t@);
    while i > 0
        invariant
            i <= t@.len(),
            lookup(table_view(t@), name.spec_bytes()) == lookup(
                table_view(t@.take(i as int)),
                name.spec_bytes(),
            ),
        decreases i,
    {
        let ghost tv = table_view(t@.take(i as int));
        assert(tv.drop_last() =~= table_view(t@.take(i - 1)));
        if same_text(t[i - 1].0, name) {
            return Some(t[i - 1].1);
        }
        i = i - 1;
    }
    assert(table_view(t@.take(0)) =~= seq![]);
    None
}

/// The location counter after a line with command `c`.
fn next_counter(counter: Address, c: Option<Command>) -> (r: Address)
    requires
        counter.wf(),
        match c {
            Some(x) => crate::syntax::command_wf(x@),
            None => true,
        },
    ensures
        r.wf(),
        r.0 == advance(
            counter.0,
            match c {
                Some(x) => Some(x@),
                None => None,
            },
        ),
{
    match c {
        Some(Command::Directive(Directive::Org { address })) => address,
        Some(Command::Directive(Directive::Reserve { amount })) => counter.offset(amount),
        Some(Command::Directive(Directive::End)) => counter,
        Some(_) => counter.next(),
        None => counter,
    }
}

/// Pass one over parsed lines: the table, or the first label defined twice.
fn collect_labels<'s>(lines: &Vec<AssemblyLine<'s>>) -> (r: Result<Vec<(&'s str, Address)>, &'s str>)
    requires
        forall|k: int| 0 <= k < lines@.len() ==> line_wf(#[trigger] lines_view(lines@)[k]),
    ensures
        match symbols(lines_view(lines@)) {
            Ok(t) => r matches Ok(v) && table_view(v@) == t,
            Err(n) => r matches Err(l) && l.spec_bytes() == n,
        },
{
    let ghost all = lines_view(lines@);
    let mut table: Vec<(&'s str, Address)> = Vec::new();
    let mut counter = Address(0);
    let mut i: usize = 0;
    assert(all.take(0) =~= seq![]);
    assert(table_view(table@) =~= seq![]);
    while i < lines.len()
        invariant
            all == lines_view(lines@),
            forall|k: int| 0 <= k < all.len() ==> line_wf(#[trigger] all[k]),
            0 <= i <= lines@.len(),
            counter.wf(),
            counter.0 == counter_after(all.take(i as int)),
            symbols(all.take(i as int)) == Ok::<_, Seq<u8>>(table_view(table@)),
        decreases lines@.len() - i,
    {
        let ghost before = all.take(i as int);
        assert(all.take(i + 1).drop_last() =~= before);
        assert(all.take(i + 1).last() == all[i as int]);
        assert(line_wf(all[i as int]));
        let line = &lines[i];
        if let Some(l) = line.label() {
            if find_label(&table, l).is_some() {
                proof {
                    lemma_symbols_error_stays(all, i as int + 1);
                }
                return Err(l);
            }
            let ghost tv = table_view(table@);
            table.push((l, counter));
            assert(table_view(table@) =~= tv.push((l.spec_bytes(), counter.0)));
        }
        counter = next_counter(counter, line.command());
        i = i + 1;
    }
    assert(all.take(lines@.len() as int) =~= all);
    Ok(table)
}

/// Once pass one fails, it fails with the same label to the end.
pub proof fn lemma_symbols_error_stays(lines: Seq<LineModel>, i: int)
    requires
        0 <= i <= lines.len(),
        symbols(lines.take(i)) is Err,
    ensures
        symbols(lines) == symbols(lines.take(i)),
    decreases lines.len() - i,
{
    if i < lines.len() {
        assert(lines.take(i + 1).drop_last() =~= lines.take(i));
        lemma_symbols_error_stays(lines, i + 1);
    } else {
        assert(lines.take(i) =~= lines);
    }
}

/// The address an operand stands for, or the label that the table lacks.
fn resolve_direction<'s>(d: Direction<'s>, t: &Vec<(&'s str, Address)>) -> (r: Result<Address, &'s str>)
    ensures
        match resolve(d@, table_view(t@)) {
            Ok(a) => r == Ok::<Address, &str>(a),
            Err(n) => r matches Err(l) && l.spec_bytes() == n,
        },
{
    match d {
        Direction::Address(a) => Ok(a),
        Direction::Label(l) => match find_label(t, l) {
            Some(a) => Ok(a),
            None => Err(l),
        },
    }
}

/// An instruction with its operand resolved.
fn resolve_instruction<'s>(i: Instruction<Direction<'s>>, t: &Vec<(&'s str, Address)>) -> (r: Result<
    Instruction<Address>,
    &'s str,
>)
    ensures
        match resolved(crate::syntax::instruction_view(i), table_view(t@)) {
            Ok(a) => r == Ok::<Instruction<Address>, &str>(a),
            Err(n) => r matches Err(l) && l.spec_bytes() == n,
        },
{
    match i {
        Instruction::Store { address } => match resolve_direction(address, t) {
            Ok(a) => Ok(Instruction::Store { address: a }),
            Err(l) => Err(l),
        },
        Instruction::Load { address } => match resolve_direction(address, t) {
            Ok(a) => Ok(Instruction::Load { address: a }),
            Err(l) => Err(l),
        },
        Instruction::Add { address } => match resolve_direction(address, t) {
            Ok(a) => Ok(Instruction::Add { address: a }),
            Err(l) => Err(l),
        },
        Instruction::Branch { address } => match resolve_direction(address, t) {
            Ok(a) => Ok(Instruction::Branch { address: a }),
            Err(l) => Err(l),
        },
        Instruction::BranchIfZero { address } => match resolve_direction(address, t) {
            Ok(a) => Ok(Instruction::BranchIfZero { address: a }),
            Err(l) => Err(l),
        },
        Instruction::Clear => Ok(Instruction::Clear),
        Instruction::Decrease => Ok(Instruction::Decrease),
        Instruction::Halt => Ok(Instruction::Halt),
    }
}

/// Once `end` is met, pass two changes nothing more.
proof fn lemma_ended_stays(lines: Seq<LineModel>, t: Symbols, i: int, j: int)
    requires
        0 <= i <= j <= lines.len(),
        image_of(lines.take(i), t) matches Ok(st) && st.ended,
    ensures
        image_of(lines.take(j), t) == image_of(lines.take(i), t),
    decreases j - i,
{
    if i < j {
        lemma_ended_stays(lines, t, i, j - 1);
        assert(lines.take(j).drop_last() =~= lines.take(j - 1));
    }
}

/// Pass two over parsed lines with the table of pass one.
fn encode_lines<'s>(lines: &Vec<AssemblyLine<'s>>, t: &Vec<(&'s str, Address)>) -> (r: Result<
    Memory,
    &'s str,
>)
    requires
        forall|k: int| 0 <= k < lines@.len() ==> line_wf(#[trigger] lines_view(lines@)[k]),
    ensures
        match image_of(lines_view(lines@), table_view(t@)) {
            Ok(st) => r matches Ok(m) && m.0@ == st.memory && m.wf(),
            Err(n) => r matches Err(l) && l.spec_bytes() == n,
        },
{
    let ghost all = lines_view(lines@);
    let ghost tv = table_view(t@);
    let mut memory = Memory::default();
    assert(memory.0@ =~= blank_memory());
    let mut counter = Address(0);
    let mut i: usize = 0;
    while i < lines.len()
        invariant
            all == lines_view(lines@),
            tv == table_view(t@),
            forall|k: int| 0 <= k < all.len() ==> line_wf(#[trigger] all[k]),
            0 <= i <= lines@.len(),
            counter.wf(),
            memory.wf(),
            image_of(all.take(i as int), tv) == Ok::<_, Seq<u8>>(
                Image { counter: counter.0, memory: memory.0@, ended: false },
            ),
        decreases lines@.len() - i,
    {
        assert(all.take(i + 1).drop_last() =~= all.take(i as int));
        assert(all.take(i + 1).last() == all[i as int]);
        assert(line_wf(all[i as int]));
        match lines[i].command() {
            None => {},
            Some(Command::Instruction(ins)) => {
                let a = match resolve_instruction(ins, t) {
                    Ok(a) => a,
                    Err(l) => {
                        proof {
                            lemma_image_error_stays(all, tv, i as int + 1);
                        }
                        return Err(l);
                    },
                };
                memory.set(counter, a.encode());
                counter = counter.next();
            },
            Some(Command::Directive(Directive::Data { value })) => {
                memory.set(counter, value);
                counter = counter.next();
            },
            Some(Command::Directive(Directive::End)) => {
                proof {
                    lemma_ended_stays(all, tv, i as int + 1, all.len() as int);
                    assert(all.take(all.len() as int) =~= all);
                }
                return Ok(memory);
            },
            Some(c) => {
                counter = next_counter(counter, Some(c));
            },
        }
        i = i + 1;
    }
    assert(all.take(lines@.len() as int) =~= all);
    Ok(memory)
}

/// Once pass two fails, it fails with the same label to the end.
pub proof fn lemma_image_error_stays(lines: Seq<LineModel>, t: Symbols, i: int)
    requires
        0 <= i <= lines.len(),
        image_of(lines.take(i), t) is Err,
    ensures
        image_of(lines, t) == image_of(lines.take(i), t),
    decreases lines.len() - i,
{
    if i < lines.len() {
        assert(lines.take(i + 1).drop_last() =~= lines.take(i));
        lemma_image_error_stays(lines, t, i + 1);
    } else {
        assert(lines.take(i) =~= lines);
    }
}

/// Assembles a source text into a memory image. On failure the error
/// holds the input left where the fault was found; label errors hold the
/// whole input.
pub fn assemble<'s>(input: &'s str) -> (r: Result<Memory, Error<&'s str>>)
    ensures
        match assembly_of(input.spec_bytes()) {
            Ok(m) => r matches Ok(mem) && mem.0@ == m && mem.wf(),
            Err((f, at)) => r matches Err(e) && reports(e, input.spec_bytes(), f, at),
        },
{
    let lines = match scan_program(input) {
        Ok(lines) => lines,
        Err((kind, at)) => {
            return Err(Error { input: suffix(input, at), kind });
        },
    };
    proof {
        lemma_program_wf(input.spec_bytes());
    }
    assert(input.spec_bytes().subrange(0, input.spec_bytes().len() as int) =~= input.spec_bytes());
    let table = match collect_labels(&lines) {
        Ok(t) => t,
        Err(l) => {
            proof {
                lemma_text_of(l);
            }
            let name = l.to_owned();
            return Err(Error { input, kind: ErrorKind::RedefinedLabel { name } });
        },
    };
    match encode_lines(&lines, &table) {
        Ok(m) => Ok(m),
        Err(l) => {
            proof {
                lemma_text_of(l);
            }
            let name = l.to_owned();
            Err(Error { input, kind: ErrorKind::UndefinedLabel { name } })
        },
    }
}

} // verus!
