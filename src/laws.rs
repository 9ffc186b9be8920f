//! Properties of the assembler that relate several programs or several
//! steps, proved over the line values.

use vstd::prelude::*;

use crate::assembler::{
    advance, assembled, lemma_image_error_stays, lemma_symbols_error_stays, emit, image_of, lookup, resolve, resolved, symbols, Image, Symbols,
};
use crate::machine::{encode, is_word, wrap, Address, Instruction};
use crate::syntax::{CommandModel, Directive, Fault, LineModel, Operand};

verus! {

broadcast use vstd::seq::group_seq_axioms;

/// An instruction whose operand is written as a literal address.
pub open spec fn literal(i: Instruction<Address>) -> Instruction<Operand> {
    match i {
        Instruction::Store { address } => Instruction::Store { address: Operand::Address(address) },
        Instruction::Load { address } => Instruction::Load { address: Operand::Address(address) },
        Instruction::Add { address } => Instruction::Add { address: Operand::Address(address) },
        Instruction::Branch { address } => Instruction::Branch {
            address: Operand::Address(address),
        },
        Instruction::BranchIfZero { address } => Instruction::BranchIfZero {
            address: Operand::Address(address),
        },
        Instruction::Clear => Instruction::Clear,
        Instruction::Decrease => Instruction::Decrease,
        Instruction::Halt => Instruction::Halt,
    }
}

/// A line without label holding command `c`.
pub open spec fn bare(c: CommandModel) -> LineModel {
    LineModel { label: None, command: Some(c) }
}

proof fn lemma_literal_resolves(i: Instruction<Address>, t: Symbols)
    ensures
        resolved(literal(i), t) == Ok::<_, Seq<u8>>(i),
{
}

/// Pass two reads the table only through `lookup`.
proof fn lemma_image_same_lookups(a: Seq<LineModel>, b: Seq<LineModel>, ta: Symbols, tb: Symbols)
    requires
        a.len() == b.len(),
        forall|k: int| 0 <= k < a.len() ==> (#[trigger] a[k]).command == b[k].command,
        forall|n: Seq<u8>| lookup(ta, n) == lookup(tb, n),
    ensures
        image_of(a, ta) == image_of(b, tb),
    decreases a.len(),
{
    if a.len() > 0 {
        lemma_image_same_lookups(a.drop_last(), b.drop_last(), ta, tb);
        assert(a.last().command == b[a.len() - 1].command);
        if let Ok(st) = image_of(a.drop_last(), ta) {
            if let Some(CommandModel::Instruction(i)) = a.last().command {
                match i {
                    Instruction::Store { address } => assert(resolve(address, ta) == resolve(
                        address,
                        tb,
                    )),
                    Instruction::Load { address } => assert(resolve(address, ta) == resolve(
                        address,
                        tb,
                    )),
                    Instruction::Add { address } => assert(resolve(address, ta) == resolve(
                        address,
                        tb,
                    )),
                    Instruction::Branch { address } => assert(resolve(address, ta) == resolve(
                        address,
                        tb,
                    )),
                    Instruction::BranchIfZero { address } => assert(resolve(address, ta)
                        == resolve(address, tb)),
                    _ => {},
                }
            }
        }
    }
}

/// Forward references: encoding depends on where labels are defined only
/// through the addresses they receive. Two programs with the same commands,
/// line for line, whose labels resolve to the same addresses assemble to
/// the same memory, whether a label is used before or after its
/// definition.
pub proof fn lemma_forward_reference(a: Seq<LineModel>, b: Seq<LineModel>)
    requires
        a.len() == b.len(),
        forall|k: int| 0 <= k < a.len() ==> (#[trigger] a[k]).command == b[k].command,
        symbols(a) is Ok,
        symbols(b) is Ok,
        forall|n: Seq<u8>|
            lookup(symbols(a)->Ok_0, n) == lookup(symbols(b)->Ok_0, n),
    ensures
        assembled(a) == assembled(b),
{
    lemma_image_same_lookups(a, b, symbols(a)->Ok_0, symbols(b)->Ok_0);
}

/// `org` followed by one instruction writes that instruction's word at the
/// `org` address and leaves every other word zero.
pub proof fn lemma_org_places(at: Address, i: Instruction<Address>)
    requires
        at.wf(),
    ensures
        ({
            let lines = seq![
                bare(CommandModel::Directive(Directive::Org { address: at })),
                bare(CommandModel::Instruction(literal(i))),
            ];
            &&& assembled(lines) matches Ok(m)
            &&& m.len() == 512
            &&& m[at.slot()] == encode(i)
            &&& forall|k: int| 0 <= k < 512 && k != at.slot() ==> m[k] == 0
        }),
{
    let lines = seq![
        bare(CommandModel::Directive(Directive::Org { address: at })),
        bare(CommandModel::Instruction(literal(i))),
    ];
    let first = seq![lines[0]];
    let empty = Seq::<LineModel>::empty();
    lemma_literal_resolves(i, seq![]);
    assert(lines.drop_last() =~= first);
    assert(first.drop_last() =~= empty);
    assert(symbols(empty) == Ok::<Symbols, Seq<u8>>(seq![]));
    assert(symbols(first) == Ok::<Symbols, Seq<u8>>(seq![]));
    assert(symbols(lines) == Ok::<Symbols, Seq<u8>>(seq![]));
    let t: Symbols = seq![];
    let start = Image { counter: 0, memory: crate::assembler::blank_memory(), ended: false };
    assert(image_of(empty, t) == Ok::<_, Seq<u8>>(start));
    let placed = Image { counter: at.0, ..start };
    assert(image_of(first, t) == Ok::<_, Seq<u8>>(placed));
    assert(image_of(lines, t) == emit(placed, lines[1], t));
}

/// `res N` moves the location counter on by N, modulo 4096, and writes
/// nothing; the instruction after it is written at the old counter plus N.
pub proof fn lemma_reserve(st: Image, n: u16, i: Instruction<Address>, t: Symbols)
    requires
        !st.ended,
        is_word(st.counter as int),
        is_word(n as int),
    ensures
        advance(st.counter, Some(CommandModel::Directive(Directive::Reserve { amount: n })))
            == wrap(st.counter + n),
        emit(st, bare(CommandModel::Directive(Directive::Reserve { amount: n })), t) == Ok::<
            _,
            Seq<u8>,
        >(Image { counter: wrap(st.counter + n) as u16, ..st }),
        ({
            let moved = Image { counter: wrap(st.counter + n) as u16, ..st };
            emit(moved, bare(CommandModel::Instruction(literal(i))), t) == Ok::<_, Seq<u8>>(
                Image {
                    counter: wrap(moved.counter + 1) as u16,
                    memory: st.memory.update(Address(moved.counter).slot(), encode(i)),
                    ended: false,
                },
            )
        }),
{
    lemma_literal_resolves(i, t);
}

/// Lines without labels leave pass one as it was.
proof fn lemma_symbols_unlabelled(lines: Seq<LineModel>, i: int)
    requires
        0 <= i <= lines.len(),
        forall|k: int| i <= k < lines.len() ==> (#[trigger] lines[k]).label is None,
    ensures
        symbols(lines) == symbols(lines.take(i)),
    decreases lines.len(),
{
    if lines.len() > i {
        let rest = lines.drop_last();
        assert forall|k: int| i <= k < rest.len() implies (#[trigger] rest[k]).label is None by {
            assert(rest[k] == lines[k]);
        }
        lemma_symbols_unlabelled(rest, i);
        assert(rest.take(i) =~= lines.take(i));
        assert(lines.last() == lines[lines.len() - 1]);
    } else {
        assert(lines.take(i) =~= lines);
    }
}

/// Once pass two has failed or met `end`, later lines change nothing.
proof fn lemma_image_settled(lines: Seq<LineModel>, t: Symbols, i: int)
    requires
        0 <= i <= lines.len(),
        image_of(lines.take(i), t) is Err || image_of(lines.take(i), t)->Ok_0.ended,
    ensures
        image_of(lines, t) == image_of(lines.take(i), t),
    decreases lines.len(),
{
    if lines.len() > i {
        let rest = lines.drop_last();
        assert(rest.take(i) =~= lines.take(i));
        lemma_image_settled(rest, t, i);
    } else {
        assert(lines.take(i) =~= lines);
    }
}

/// Lines after `end` that define no label do not change the memory.
pub proof fn lemma_after_end(pre: Seq<LineModel>, post: Seq<LineModel>)
    requires
        pre.len() > 0,
        pre.last().command == Some(CommandModel::Directive(Directive::End)),
        forall|k: int| 0 <= k < post.len() ==> (#[trigger] post[k]).label is None,
    ensures
        assembled(pre + post) == assembled(pre),
{
    let all = pre + post;
    let n = pre.len() as int;
    assert(all.take(n) =~= pre);
    assert forall|k: int| n <= k < all.len() implies (#[trigger] all[k]).label is None by {
        assert(all[k] == post[k - n]);
    }
    lemma_symbols_unlabelled(all, n);
    if let Ok(t) = symbols(pre) {
        lemma_image_settled(all, t, n);
    }
}

/// A label in the table stays there as pass one goes on.
proof fn lemma_defined_stays(lines: Seq<LineModel>, i: int, n: Seq<u8>)
    requires
        0 <= i < lines.len(),
        lines[i].label == Some(n),
        symbols(lines) is Ok,
    ensures
        lookup(symbols(lines)->Ok_0, n) is Some,
    decreases lines.len(),
{
    let rest = lines.drop_last();
    if i < lines.len() - 1 {
        assert(rest[i] == lines[i]);
        lemma_defined_stays(rest, i, n);
        if let Some(m) = lines.last().label {
            let t0 = symbols(rest)->Ok_0;
            let c = crate::assembler::counter_after(rest);
            assert(t0.push((m, c)).drop_last() =~= t0);
        }
    } else {
        let t0 = symbols(rest)->Ok_0;
        let c = crate::assembler::counter_after(rest);
        assert(lines.last() == lines[i]);
        assert(t0.push((n, c)).last() == (n, c));
    }
}

/// A label defined on two lines makes assembly fail with
/// `RedefinedLabel`, and no memory is produced.
pub proof fn lemma_redefined(lines: Seq<LineModel>, i: int, j: int)
    requires
        0 <= i < j < lines.len(),
        lines[i].label is Some,
        lines[j].label == lines[i].label,
    ensures
        assembled(lines) matches Err(Fault::RedefinedLabel(_)),
{
    let n = lines[i].label->Some_0;
    let upto = lines.take(j + 1);
    assert(upto.drop_last() =~= lines.take(j));
    assert(upto.last() == lines[j]);
    if symbols(lines.take(j)) is Ok {
        assert(lines.take(j)[i] == lines[i]);
        lemma_defined_stays(lines.take(j), i, n);
    }
    assert(symbols(upto) is Err);
    lemma_symbols_error_stays(lines, j + 1);
}

/// A label that no line defines is not in the table.
proof fn lemma_only_defined(lines: Seq<LineModel>, n: Seq<u8>)
    requires
        forall|k: int| 0 <= k < lines.len() ==> (#[trigger] lines[k]).label != Some(n),
        symbols(lines) is Ok,
    ensures
        lookup(symbols(lines)->Ok_0, n) is None,
    decreases lines.len(),
{
    if lines.len() > 0 {
        let rest = lines.drop_last();
        assert forall|k: int| 0 <= k < rest.len() implies (#[trigger] rest[k]).label != Some(n) by {
            assert(rest[k] == lines[k]);
        }
        lemma_only_defined(rest, n);
        assert(lines.last() == lines[lines.len() - 1]);
        if let Some(m) = lines.last().label {
            let t0 = symbols(rest)->Ok_0;
            let c = crate::assembler::counter_after(rest);
            assert(t0.push((m, c)).drop_last() =~= t0);
        }
    }
}

/// Before any `end`, pass two has not stopped.
proof fn lemma_not_ended(lines: Seq<LineModel>, t: Symbols, i: int)
    requires
        0 <= i <= lines.len(),
        forall|k: int|
            0 <= k < i ==> (#[trigger] lines[k]).command != Some(
                CommandModel::Directive(Directive::End),
            ),
    ensures
        image_of(lines.take(i), t) matches Ok(st) ==> !st.ended,
    decreases i,
{
    if i > 0 {
        lemma_not_ended(lines, t, i - 1);
        assert(lines.take(i).drop_last() =~= lines.take(i - 1));
        assert(lines.take(i).last() == lines[i - 1]);
    } else {
        assert(lines.take(0) =~= Seq::<LineModel>::empty());
    }
}

/// An instruction that pass two reaches and whose operand names a label
/// that no line defines makes assembly fail with `UndefinedLabel`.
pub proof fn lemma_undefined(lines: Seq<LineModel>, i: int, n: Seq<u8>)
    requires
        0 <= i < lines.len(),
        lines[i].command matches Some(CommandModel::Instruction(ins)) && ins.operand() == Some(
            Operand::Label(n),
        ),
        forall|k: int| 0 <= k < lines.len() ==> (#[trigger] lines[k]).label != Some(n),
        forall|k: int|
            0 <= k < i ==> (#[trigger] lines[k]).command != Some(
                CommandModel::Directive(Directive::End),
            ),
        symbols(lines) is Ok,
    ensures
        assembled(lines) matches Err(Fault::UndefinedLabel(_)),
{
    let t = symbols(lines)->Ok_0;
    lemma_only_defined(lines, n);
    lemma_not_ended(lines, t, i);
    let upto = lines.take(i + 1);
    assert(upto.drop_last() =~= lines.take(i));
    assert(upto.last() == lines[i]);
    assert(resolve(Operand::Label(n), t) is Err);
    assert(image_of(upto, t) is Err);
    lemma_image_error_stays(lines, t, i + 1);
}

} // verus!
