//! The assembly language: its syntax as spec functions over the bytes of
//! the source, and the parsers that implement it.
//!
//! A line is `[label[:]] whitespace [mnemonic [whitespace operand]*]
//! [whitespace* ; comment]`. The label starts with a letter and holds
//! letters and digits; the mnemonic is a run of letters, matched without
//! regard to case. An operand is `N` (a number), `/N` (an address), `/-N`
//! (the address `4096 - N`), or `/name` or `name` (a label). Lines are
//! separated by line feeds.

use vstd::prelude::*;
use vstd::string::StringSliceAdditionalSpecFns;
use vstd::utf8::*;

use crate::machine::{is_word, Address, Instruction};
use crate::text::{
    ascii_edge, class_contains, digits_value, is_alpha, is_whitespace, lemma_run_end, lemma_run_keeps_edge, run_end,
    scan, substring, suffix, word_value, CharClass,
};

verus! {

broadcast use vstd::seq::group_seq_axioms;

/// What kind of operand a mnemonic expected.
#[derive(Clone, Copy, Debug, PartialEq, Eq, Structural)]
pub enum ParamType {
    Direction,
    Number,
}

/// Why assembly failed.
#[derive(Clone, Debug)]
pub enum ErrorKind {
    /// The operand was of the wrong kind.
    InvalidParameter { expected_type: ParamType },
    /// A number does not fit in 12 bits.
    InvalidNumber,
    /// An operand names a label that no line defines.
    UndefinedLabel { name: String },
    /// The mnemonic (shown in lower case) is not known.
    InvalidInstruction { name: String },
    /// Two lines define the same label.
    RedefinedLabel { name: String },
    /// The mnemonic needs an operand and has none.
    MissingParameter,
    /// A label does not start with a letter.
    InvalidLabelName,
    /// Text is left over after the last line that could be read.
    SyntaxError,
    /// The text does not have the expected form.
    ParseError,
}

/// An assembly error, with the input that was left where it occurred.
#[derive(Clone, Debug)]
pub struct Error<I> {
    pub input: I,
    pub kind: ErrorKind,
}

/// An instruction operand: a label to resolve, or an address.
#[derive(Clone, Copy, Debug)]
pub enum Direction<'s> {
    Label(&'s str),
    Address(Address),
}

/// An operand as written: an address operand or a bare number.
#[derive(Clone, Copy, Debug)]
pub enum Parameter<'s> {
    Direction(Direction<'s>),
    Number(u16),
}

/// An assembler directive.
#[derive(Clone, Copy, Debug, PartialEq, Eq, Structural)]
pub enum Directive {
    /// Moves the location counter to `address`.
    Org { address: Address },
    /// Emits the word `value`.
    Data { value: u16 },
    /// Advances the location counter by `amount` without emitting.
    Reserve { amount: u16 },
    /// Stops assembly.
    End,
}

/// What a line asks for: a directive or an instruction.
#[derive(Clone, Copy, Debug)]
pub enum Command<'s> {
    Directive(Directive),
    Instruction(Instruction<Direction<'s>>),
}

/// One parsed line: its label and its command, each optional.
#[derive(Clone, Copy, Debug)]
pub struct AssemblyLine<'s> {
    label: Option<&'s str>,
    command: Option<Command<'s>>,
}

/// An operand as a value: label text as bytes, or an address.
pub enum Operand {
    Label(Seq<u8>),
    Address(Address),
}

/// A parameter as a value.
pub enum ParamModel {
    Direction(Operand),
    Number(u16),
}

/// A command as a value.
pub enum CommandModel {
    Directive(Directive),
    Instruction(Instruction<Operand>),
}

/// A line as a value.
pub struct LineModel {
    pub label: Option<Seq<u8>>,
    pub command: Option<CommandModel>,
}

/// An error kind as a value; names are the bytes of the source text.
pub enum Fault {
    InvalidParameter(ParamType),
    InvalidNumber,
    UndefinedLabel(Seq<u8>),
    InvalidInstruction(Seq<u8>),
    RedefinedLabel(Seq<u8>),
    MissingParameter,
    InvalidLabelName,
    SyntaxError,
    ParseError,
}

impl<'s> View for Direction<'s> {
    type V = Operand;

    open spec fn view(&self) -> Operand {
        match *self {
            Direction::Label(l) => Operand::Label(l.spec_bytes()),
            Direction::Address(a) => Operand::Address(a),
        }
    }
}

impl<'s> View for Parameter<'s> {
    type V = ParamModel;

    open spec fn view(&self) -> ParamModel {
        match *self {
            Parameter::Direction(d) => ParamModel::Direction(d@),
            Parameter::Number(n) => ParamModel::Number(n),
        }
    }
}

/// An instruction with its operand replaced by the operand's value.
pub open spec fn instruction_view(i: Instruction<Direction>) -> Instruction<Operand> {
    match i {
        Instruction::Store { address } => Instruction::Store { address: address@ },
        Instruction::Load { address } => Instruction::Load { address: address@ },
        Instruction::Add { address } => Instruction::Add { address: address@ },
        Instruction::Branch { address } => Instruction::Branch { address: address@ },
        Instruction::BranchIfZero { address } => Instruction::BranchIfZero { address: address@ },
        Instruction::Clear => Instruction::Clear,
        Instruction::Decrease => Instruction::Decrease,
        Instruction::Halt => Instruction::Halt,
    }
}

impl<'s> View for Command<'s> {
    type V = CommandModel;

    open spec fn view(&self) -> CommandModel {
        match *self {
            Command::Directive(d) => CommandModel::Directive(d),
            Command::Instruction(i) => CommandModel::Instruction(instruction_view(i)),
        }
    }
}

impl<'s> View for AssemblyLine<'s> {
    type V = LineModel;

    closed spec fn view(&self) -> LineModel {
        LineModel {
            label: match self.label {
                Some(l) => Some(l.spec_bytes()),
                None => None,
            },
            command: match self.command {
                Some(c) => Some(c@),
                None => None,
            },
        }
    }
}

/// `b` as a lower-case ASCII letter, where it is an upper-case one.
pub open spec fn lower(b: u8) -> u8 {
    if 65 <= b <= 90 {
        (b + 32) as u8
    } else {
        b
    }
}

/// `c` as a lower-case ASCII letter, where it is an upper-case one.
pub open spec fn lower_char(c: char) -> char {
    if 'A' <= c <= 'Z' {
        ((c as u32) + 32) as char
    } else {
        c
    }
}

/// The text that the bytes `n` of the source spell.
pub open spec fn text_of(n: Seq<u8>) -> Seq<char> {
    decode_utf8(n)
}

/// `k` is the error kind that `f` describes.
pub open spec fn describes(k: ErrorKind, f: Fault) -> bool {
    match (k, f) {
        (ErrorKind::InvalidParameter { expected_type }, Fault::InvalidParameter(t)) => expected_type
            == t,
        (ErrorKind::InvalidNumber, Fault::InvalidNumber) => true,
        (ErrorKind::UndefinedLabel { name }, Fault::UndefinedLabel(n)) => name@ == text_of(n),
        (ErrorKind::InvalidInstruction { name }, Fault::InvalidInstruction(n)) => name@
            == text_of(n).map_values(|c: char| lower_char(c)),
        (ErrorKind::RedefinedLabel { name }, Fault::RedefinedLabel(n)) => name@ == text_of(n),
        (ErrorKind::MissingParameter, Fault::MissingParameter) => true,
        (ErrorKind::InvalidLabelName, Fault::InvalidLabelName) => true,
        (ErrorKind::SyntaxError, Fault::SyntaxError) => true,
        (ErrorKind::ParseError, Fault::ParseError) => true,
        _ => false,
    }
}

/// `e` reports fault `f` at byte `at` of the source `s`.
pub open spec fn reports(e: Error<&str>, s: Seq<u8>, f: Fault, at: int) -> bool {
    &&& describes(e.kind, f)
    &&& e.input.spec_bytes() == s.subrange(at, s.len() as int)
}

/// An internal parse result agrees with a fault at a position.
pub open spec fn fails_with<T>(r: Result<T, (ErrorKind, usize)>, f: (Fault, int)) -> bool {
    match r {
        Err((k, at)) => describes(k, f.0) && at == f.1,
        Ok(_) => false,
    }
}

// ---------------------------------------------------------------------
// Operands
// ---------------------------------------------------------------------

/// A decimal number at `i` that fits in 12 bits, and where it ends.
pub open spec fn number_at(s: Seq<u8>, i: int) -> Result<(u16, int), (Fault, int)> {
    let e = run_end(s, i, CharClass::Digit);
    if e == i {
        Err((Fault::ParseError, i))
    } else if digits_value(s, i, e) < 4096 {
        Ok((digits_value(s, i, e) as u16, e))
    } else {
        Err((Fault::InvalidNumber, i))
    }
}

/// A label at `i`: a letter, then letters and digits.
pub open spec fn label_at(s: Seq<u8>, i: int) -> Result<(Seq<u8>, int), (Fault, int)> {
    if 0 <= i < s.len() && is_alpha(s[i]) {
        let e = run_end(s, i, CharClass::Alnum);
        Ok((s.subrange(i, e), e))
    } else {
        Err((Fault::InvalidLabelName, i))
    }
}

/// The address that `/-n` denotes: `4096 - n`, modulo 4096.
pub open spec fn negated(n: u16) -> Address {
    Address(((4096 - n) % 4096) as u16)
}

/// A direction at `i`: `/label`, `/N` or `/-N`.
pub open spec fn direction_at(s: Seq<u8>, i: int) -> Result<(Operand, int), (Fault, int)> {
    if !(0 <= i < s.len() && s[i] == 47) {
        Err((Fault::ParseError, i))
    } else if i + 1 < s.len() && is_alpha(s[i + 1]) {
        let e = run_end(s, i + 1, CharClass::Alnum);
        Ok((Operand::Label(s.subrange(i + 1, e)), e))
    } else if i + 1 < s.len() && s[i + 1] == 45 {
        match number_at(s, i + 2) {
            Ok((n, e)) => Ok((Operand::Address(negated(n)), e)),
            Err(x) => Err(x),
        }
    } else {
        match number_at(s, i + 1) {
            Ok((n, e)) => Ok((Operand::Address(Address(n)), e)),
            Err(x) => Err(x),
        }
    }
}

/// A parameter at `i`: a direction, a bare label, or a number.
pub open spec fn parameter_at(s: Seq<u8>, i: int) -> Result<(ParamModel, int), (Fault, int)> {
    if 0 <= i < s.len() && s[i] == 47 {
        match direction_at(s, i) {
            Ok((d, e)) => Ok((ParamModel::Direction(d), e)),
            Err(x) => Err(x),
        }
    } else if 0 <= i < s.len() && is_alpha(s[i]) {
        let e = run_end(s, i, CharClass::Alnum);
        Ok((ParamModel::Direction(Operand::Label(s.subrange(i, e))), e))
    } else {
        match number_at(s, i) {
            Ok((n, e)) => Ok((ParamModel::Number(n), e)),
            Err(x) => Err(x),
        }
    }
}

/// Reads a decimal number that fits in 12 bits.
fn scan_number(b: &[u8], i: usize) -> (r: Result<(u16, usize), (ErrorKind, usize)>)
    requires
        i <= b@.len(),
        ascii_edge(b@, i as int),
    ensures
        match number_at(b@, i as int) {
            Ok((n, e)) => r matches Ok((n2, e2)) && n2 == n && e2 == e,
            Err(f) => fails_with(r, f),
        },
        r matches Ok((_, e)) ==> i < e <= b@.len() && ascii_edge(b@, e as int),
{
    let e = scan(b, i, CharClass::Digit);
    proof {
        lemma_run_end(b@, i as int, CharClass::Digit);
        lemma_run_keeps_edge(b@, i as int, CharClass::Digit);
    }
    if e == i {
        return Err((ErrorKind::ParseError, i));
    }
    match word_value(b, i, e) {
        Some(v) => Ok((v, e)),
        None => Err((ErrorKind::InvalidNumber, i)),
    }
}

/// `4096 - n`, modulo 4096.
fn negate(n: u16) -> (r: Address)
    requires
        n < 4096,
    ensures
        r == negated(n),
{
    if n == 0 {
        Address(0)
    } else {
        Address(4096 - n)
    }
}

/// Reads a direction; labels come out as slices of `src`.
fn scan_direction<'s>(src: &'s str, b: &[u8], i: usize) -> (r: Result<
    (Direction<'s>, usize),
    (ErrorKind, usize),
>)
    requires
        b@ == src.spec_bytes(),
        i <= b@.len(),
        ascii_edge(b@, i as int),
    ensures
        match direction_at(b@, i as int) {
            Ok((d, e)) => r matches Ok((d2, e2)) && d2@ == d && e2 == e,
            Err(f) => fails_with(r, f),
        },
        r matches Ok((_, e)) ==> i < e <= b@.len() && ascii_edge(b@, e as int),
{
    if !(i < b.len() && b[i] == 47) {
        return Err((ErrorKind::ParseError, i));
    }
    let j = i + 1;
    if j < b.len() && class_contains(CharClass::Alpha, b[j]) {
        let e = scan(b, j, CharClass::Alnum);
        proof {
            lemma_run_end(b@, j as int, CharClass::Alnum);
            lemma_run_keeps_edge(b@, j as int, CharClass::Alnum);
        }
        let l = substring(src, j, e);
        return Ok((Direction::Label(l), e));
    }
    if j < b.len() && b[j] == 45 {
        match scan_number(b, j + 1) {
            Ok((n, e)) => Ok((Direction::Address(negate(n)), e)),
            Err(x) => Err(x),
        }
    } else {
        match scan_number(b, j) {
            Ok((n, e)) => Ok((Direction::Address(Address(n)), e)),
            Err(x) => Err(x),
        }
    }
}

/// Reads a parameter.
fn scan_parameter<'s>(src: &'s str, b: &[u8], i: usize) -> (r: Result<
    (Parameter<'s>, usize),
    (ErrorKind, usize),
>)
    requires
        b@ == src.spec_bytes(),
        i <= b@.len(),
        ascii_edge(b@, i as int),
    ensures
        match parameter_at(b@, i as int) {
            Ok((p, e)) => r matches Ok((p2, e2)) && p2@ == p && e2 == e,
            Err(f) => fails_with(r, f),
        },
        r matches Ok((_, e)) ==> i < e <= b@.len() && ascii_edge(b@, e as int),
{
    if i < b.len() && b[i] == 47 {
        match scan_direction(src, b, i) {
            Ok((d, e)) => Ok((Parameter::Direction(d), e)),
            Err(x) => Err(x),
        }
    } else if i < b.len() && class_contains(CharClass::Alpha, b[i]) {
        let e = scan(b, i, CharClass::Alnum);
        proof {
            lemma_run_end(b@, i as int, CharClass::Alnum);
            lemma_run_keeps_edge(b@, i as int, CharClass::Alnum);
        }
        let l = substring(src, i, e);
        Ok((Parameter::Direction(Direction::Label(l)), e))
    } else {
        match scan_number(b, i) {
            Ok((n, e)) => Ok((Parameter::Number(n), e)),
            Err(x) => Err(x),
        }
    }
}

// ---------------------------------------------------------------------
// Lines
// ---------------------------------------------------------------------

/// The mnemonics of the language: eight instructions and four directives.
#[derive(Clone, Copy, Debug, PartialEq, Eq, Structural)]
pub enum Mnemonic {
    St,
    Ld,
    Add,
    Br,
    Bz,
    Clr,
    Dec,
    Halt,
    Org,
    Data,
    Res,
    End,
}

/// The mnemonic that the letters `m` spell, in any case.
pub open spec fn mnemonic_of(m: Seq<u8>) -> Option<Mnemonic> {
    let n = m.len();
    let c = |k: int|
        if k < n {
            lower(m[k])
        } else {
            0u8
        };
    if n == 2 && c(0) == 115 && c(1) == 116 {  // "st"
        Some(Mnemonic::St)
    } else if n == 2 && c(0) == 108 && c(1) == 100 {  // "ld"
        Some(Mnemonic::Ld)
    } else if n == 3 && c(0) == 97 && c(1) == 100 && c(2) == 100 {  // "add"
        Some(Mnemonic::Add)
    } else if n == 2 && c(0) == 98 && c(1) == 114 {  // "br"
        Some(Mnemonic::Br)
    } else if n == 2 && c(0) == 98 && c(1) == 122 {  // "bz"
        Some(Mnemonic::Bz)
    } else if n == 3 && c(0) == 99 && c(1) == 108 && c(2) == 114 {  // "clr"
        Some(Mnemonic::Clr)
    } else if n == 3 && c(0) == 100 && c(1) == 101 && c(2) == 99 {  // "dec"
        Some(Mnemonic::Dec)
    } else if n == 4 && c(0) == 104 && c(1) == 97 && c(2) == 108 && c(3) == 116 {  // "halt"
        Some(Mnemonic::Halt)
    } else if n == 3 && c(0) == 111 && c(1) == 114 && c(2) == 103 {  // "org"
        Some(Mnemonic::Org)
    } else if n == 4 && c(0) == 100 && c(1) == 97 && c(2) == 116 && c(3) == 97 {  // "data"
        Some(Mnemonic::Data)
    } else if n == 3 && c(0) == 114 && c(1) == 101 && c(2) == 115 {  // "res"
        Some(Mnemonic::Res)
    } else if n == 3 && c(0) == 101 && c(1) == 110 && c(2) == 100 {  // "end"
        Some(Mnemonic::End)
    } else {
        None
    }
}

/// The address operand of an instruction.
pub open spec fn direction_operand(first: Option<ParamModel>) -> Result<Operand, Fault> {
    match first {
        None => Err(Fault::MissingParameter),
        Some(ParamModel::Direction(d)) => Ok(d),
        Some(ParamModel::Number(_)) => Err(Fault::InvalidParameter(ParamType::Direction)),
    }
}

/// The number operand of a directive: a number or a literal address, not a
/// label.
pub open spec fn number_operand(first: Option<ParamModel>) -> Result<u16, Fault> {
    match first {
        None => Err(Fault::MissingParameter),
        Some(ParamModel::Number(n)) => Ok(n),
        Some(ParamModel::Direction(Operand::Address(a))) => Ok(a.0),
        Some(ParamModel::Direction(Operand::Label(_))) => Err(
            Fault::InvalidParameter(ParamType::Number),
        ),
    }
}

/// An addressed instruction with operand `d`.
pub open spec fn addressed(m: Mnemonic, d: Operand) -> Instruction<Operand> {
    match m {
        Mnemonic::St => Instruction::Store { address: d },
        Mnemonic::Ld => Instruction::Load { address: d },
        Mnemonic::Add => Instruction::Add { address: d },
        Mnemonic::Br => Instruction::Branch { address: d },
        _ => Instruction::BranchIfZero { address: d },
    }
}

/// The command that mnemonic `m` with first operand `first` stands for.
/// Operands after the first are read and ignored.
pub open spec fn command_of(m: Seq<u8>, first: Option<ParamModel>) -> Result<CommandModel, Fault> {
    match mnemonic_of(m) {
        None => Err(Fault::InvalidInstruction(m)),
        Some(k) => match k {
            Mnemonic::St | Mnemonic::Ld | Mnemonic::Add | Mnemonic::Br | Mnemonic::Bz => {
                match direction_operand(first) {
                    Ok(d) => Ok(CommandModel::Instruction(addressed(k, d))),
                    Err(f) => Err(f),
                }
            },
            Mnemonic::Clr => Ok(CommandModel::Instruction(Instruction::Clear)),
            Mnemonic::Dec => Ok(CommandModel::Instruction(Instruction::Decrease)),
            Mnemonic::Halt => Ok(CommandModel::Instruction(Instruction::Halt)),
            Mnemonic::End => Ok(CommandModel::Directive(Directive::End)),
            _ => match number_operand(first) {
                Ok(n) => Ok(
                    CommandModel::Directive(
                        match k {
                            Mnemonic::Org => Directive::Org { address: Address(n) },
                            Mnemonic::Data => Directive::Data { value: n },
                            _ => Directive::Reserve { amount: n },
                        },
                    ),
                ),
                Err(f) => Err(f),
            },
        },
    }
}

/// Where the operands after one that ends at `p` end: each further operand
/// follows spaces; the list stops before spaces that no operand follows.
pub open spec fn params_end(s: Seq<u8>, p: int) -> Result<int, (Fault, int)>
    decreases s.len() - p,
{
    let q = run_end(s, p, CharClass::Space);
    if q == p {
        Ok(p)
    } else {
        match parameter_at(s, q) {
            Ok((_, e)) => if p < e <= s.len() {
                params_end(s, e)
            } else {
                Ok(p)
            },
            Err((Fault::ParseError, _)) => Ok(p),
            Err(x) => Err(x),
        }
    }
}

/// The operands after a mnemonic that ends at `m`: the first one, and
/// where the list ends.
pub open spec fn operand_part(s: Seq<u8>, m: int) -> Result<(Option<ParamModel>, int), (Fault, int)> {
    let ps = run_end(s, m, CharClass::Space);
    if ps == m {
        Ok((None, m))
    } else {
        match parameter_at(s, ps) {
            Ok((p, e)) => match params_end(s, e) {
                Ok(pe) => Ok((Some(p), pe)),
                Err(x) => Err(x),
            },
            Err((Fault::ParseError, _)) => Ok((None, m)),
            Err(x) => Err(x),
        }
    }
}

/// Where a line ends after position `p`: past trailing spaces, or past a
/// `;` comment up to the line feed.
pub open spec fn after_comment(s: Seq<u8>, p: int) -> int {
    let q = run_end(s, p, CharClass::Space);
    if 0 <= q < s.len() && s[q] == 59 {
        run_end(s, q + 1, CharClass::NotNewline)
    } else {
        q
    }
}

/// What reading a line at `i` gives: no line (the text there does not
/// start with an optional label and whitespace), a line and where it ends,
/// or an error that ends assembly.
pub enum LineOutcome {
    Stop,
    Line(LineModel, int),
    Fatal(Fault, int),
}

/// The line at `i`.
pub open spec fn line_at(s: Seq<u8>, i: int) -> LineOutcome {
    let l_end = run_end(s, i, CharClass::Alnum);
    let c_end = if i < l_end && l_end < s.len() && s[l_end] == 58 {
        l_end + 1
    } else {
        l_end
    };
    let sp = run_end(s, c_end, CharClass::Space);
    if sp == c_end {
        LineOutcome::Stop
    } else if i < l_end && !is_alpha(s[i]) {
        LineOutcome::Fatal(Fault::InvalidLabelName, i)
    } else {
        let label = if i < l_end {
            Some(s.subrange(i, l_end))
        } else {
            None
        };
        let m_end = run_end(s, sp, CharClass::Alpha);
        if m_end == sp {
            LineOutcome::Line(LineModel { label, command: None }, after_comment(s, sp))
        } else {
            match operand_part(s, m_end) {
                Err((f, at)) => LineOutcome::Fatal(f, at),
                Ok((first, pe)) => {
                    let e = after_comment(s, pe);
                    match command_of(s.subrange(sp, m_end), first) {
                        Ok(c) => LineOutcome::Line(LineModel { label, command: Some(c) }, e),
                        Err(f) => LineOutcome::Fatal(f, e),
                    }
                },
            }
        }
    }
}

fn lower_byte(x: u8) -> (r: u8)
    ensures
        r == lower(x),
{
    if 65 <= x && x <= 90 {
        x + 32
    } else {
        x
    }
}

/// Recognises the mnemonic spelled by `b[from..to]`.
fn scan_mnemonic(b: &[u8], from: usize, to: usize) -> (r: Option<Mnemonic>)
    requires
        from <= to <= b@.len(),
    ensures
        r == mnemonic_of(b@.subrange(from as int, to as int)),
{
    let n = to - from;
    let c0 = if n > 0 { lower_byte(b[from]) } else { 0 };
    let c1 = if n > 1 { lower_byte(b[from + 1]) } else { 0 };
    let c2 = if n > 2 { lower_byte(b[from + 2]) } else { 0 };
    let c3 = if n > 3 { lower_byte(b[from + 3]) } else { 0 };
    if n == 2 && c0 == 115 && c1 == 116 {  // "st"
        Some(Mnemonic::St)
    } else if n == 2 && c0 == 108 && c1 == 100 {  // "ld"
        Some(Mnemonic::Ld)
    } else if n == 3 && c0 == 97 && c1 == 100 && c2 == 100 {  // "add"
        Some(Mnemonic::Add)
    } else if n == 2 && c0 == 98 && c1 == 114 {  // "br"
        Some(Mnemonic::Br)
    } else if n == 2 && c0 == 98 && c1 == 122 {  // "bz"
        Some(Mnemonic::Bz)
    } else if n == 3 && c0 == 99 && c1 == 108 && c2 == 114 {  // "clr"
        Some(Mnemonic::Clr)
    } else if n == 3 && c0 == 100 && c1 == 101 && c2 == 99 {  // "dec"
        Some(Mnemonic::Dec)
    } else if n == 4 && c0 == 104 && c1 == 97 && c2 == 108 && c3 == 116 {  // "halt"
        Some(Mnemonic::Halt)
    } else if n == 3 && c0 == 111 && c1 == 114 && c2 == 103 {  // "org"
        Some(Mnemonic::Org)
    } else if n == 4 && c0 == 100 && c1 == 97 && c2 == 116 && c3 == 97 {  // "data"
        Some(Mnemonic::Data)
    } else if n == 3 && c0 == 114 && c1 == 101 && c2 == 115 {  // "res"
        Some(Mnemonic::Res)
    } else if n == 3 && c0 == 101 && c1 == 110 && c2 == 100 {  // "end"
        Some(Mnemonic::End)
    } else {
        None
    }
}

/// Relies on `str::to_ascii_lowercase`: each ASCII letter `A`-`Z` becomes
/// `a`-`z`, every other character stays as it is.
#[verifier::external_body]
fn ascii_lowercase(s: &str) -> (r: String)
    ensures
        r@ == s@.map_values(|c: char| lower_char(c)),
{
    s.to_ascii_lowercase()
}

/// The characters of a `&str` are those its bytes encode.
pub proof fn lemma_text_of(s: &str)
    ensures
        s@ == text_of(s.spec_bytes()),
{
    encode_utf8_decode_utf8(s@);
}

/// Builds the command for the mnemonic at `b[from..to]`.
fn build_command<'s>(
    src: &'s str,
    b: &[u8],
    from: usize,
    to: usize,
    first: Option<Parameter<'s>>,
) -> (r: Result<Command<'s>, ErrorKind>)
    requires
        b@ == src.spec_bytes(),
        from < to <= b@.len(),
        is_alpha(b@[from as int]),
        is_alpha(b@[to - 1]),
    ensures
        match command_of(
            b@.subrange(from as int, to as int),
            match first {
                Some(p) => Some(p@),
                None => None,
            },
        ) {
            Ok(c) => r matches Ok(c2) && c2@ == c,
            Err(f) => r matches Err(k) && describes(k, f),
        },
{
    let k = match scan_mnemonic(b, from, to) {
        Some(k) => k,
        None => {
            let m = substring(src, from, to);
            proof {
                lemma_text_of(m);
            }
            return Err(ErrorKind::InvalidInstruction { name: ascii_lowercase(m) });
        },
    };
    match k {
        Mnemonic::St | Mnemonic::Ld | Mnemonic::Add | Mnemonic::Br | Mnemonic::Bz => {
            let d = match first {
                None => {
                    return Err(ErrorKind::MissingParameter);
                },
                Some(Parameter::Direction(d)) => d,
                Some(Parameter::Number(_)) => {
                    return Err(ErrorKind::InvalidParameter { expected_type: ParamType::Direction });
                },
            };
            let i = match k {
                Mnemonic::St => Instruction::Store { address: d },
                Mnemonic::Ld => Instruction::Load { address: d },
                Mnemonic::Add => Instruction::Add { address: d },
                Mnemonic::Br => Instruction::Branch { address: d },
                _ => Instruction::BranchIfZero { address: d },
            };
            Ok(Command::Instruction(i))
        },
        Mnemonic::Clr => Ok(Command::Instruction(Instruction::Clear)),
        Mnemonic::Dec => Ok(Command::Instruction(Instruction::Decrease)),
        Mnemonic::Halt => Ok(Command::Instruction(Instruction::Halt)),
        Mnemonic::End => Ok(Command::Directive(Directive::End)),
        _ => {
            let n = match first {
                None => {
                    return Err(ErrorKind::MissingParameter);
                },
                Some(Parameter::Number(n)) => n,
                Some(Parameter::Direction(Direction::Address(a))) => a.0,
                Some(Parameter::Direction(Direction::Label(_))) => {
                    return Err(ErrorKind::InvalidParameter { expected_type: ParamType::Number });
                },
            };
            let d = match k {
                Mnemonic::Org => Directive::Org { address: Address(n) },
                Mnemonic::Data => Directive::Data { value: n },
                _ => Directive::Reserve { amount: n },
            };
            Ok(Command::Directive(d))
        },
    }
}

/// Reads the operands that follow one ending at `p`; returns where they end.
fn scan_params_end<'s>(src: &'s str, b: &[u8], p: usize) -> (r: Result<usize, (ErrorKind, usize)>)
    requires
        b@ == src.spec_bytes(),
        p <= b@.len(),
        ascii_edge(b@, p as int),
    ensures
        match params_end(b@, p as int) {
            Ok(e) => r matches Ok(e2) && e2 == e,
            Err(f) => fails_with(r, f),
        },
        r matches Ok(e) ==> p <= e <= b@.len() && ascii_edge(b@, e as int),
        r matches Err((_, at)) ==> at <= b@.len() && ascii_edge(b@, at as int),
{
    let mut k = p;
    loop
        invariant
            b@ == src.spec_bytes(),
            p <= k <= b@.len(),
            ascii_edge(b@, k as int),
            params_end(b@, k as int) == params_end(b@, p as int),
        decreases b@.len() - k,
    {
        let q = scan(b, k, CharClass::Space);
        proof {
            lemma_run_keeps_edge(b@, k as int, CharClass::Space);
        }
        if q == k {
            return Ok(k);
        }
        match scan_parameter(src, b, q) {
            Ok((_, e)) => {
                k = e;
            },
            Err((ErrorKind::ParseError, _)) => {
                return Ok(k);
            },
            Err(x) => {
                proof {
                    lemma_parameter_error_edge(b@, q as int);
                }
                return Err(x);
            },
        }
    }
}

/// Errors from reading a parameter at an ASCII edge sit at ASCII edges.
proof fn lemma_parameter_error_edge(s: Seq<u8>, i: int)
    requires
        0 <= i <= s.len(),
        ascii_edge(s, i),
    ensures
        parameter_at(s, i) matches Err((_, at)) ==> 0 <= at <= s.len() && ascii_edge(s, at),
{
    if 0 <= i < s.len() && s[i] == 47 {
        if i + 1 < s.len() && s[i + 1] == 45 {
            assert(ascii_edge(s, i + 2));
        }
    }
}

/// Reads the operands after a mnemonic that ends at `m`.
fn scan_operand_part<'s>(src: &'s str, b: &[u8], m: usize) -> (r: Result<
    (Option<Parameter<'s>>, usize),
    (ErrorKind, usize),
>)
    requires
        b@ == src.spec_bytes(),
        m <= b@.len(),
        ascii_edge(b@, m as int),
    ensures
        match operand_part(b@, m as int) {
            Ok((p, e)) => r matches Ok((p2, e2)) && e2 == e && match p2 {
                Some(x) => p == Some(x@),
                None => p is None,
            },
            Err(f) => fails_with(r, f),
        },
        r matches Ok((_, e)) ==> m <= e <= b@.len() && ascii_edge(b@, e as int),
        r matches Err((_, at)) ==> at <= b@.len() && ascii_edge(b@, at as int),
{
    let ps = scan(b, m, CharClass::Space);
    proof {
        lemma_run_keeps_edge(b@, m as int, CharClass::Space);
    }
    if ps == m {
        return Ok((None, m));
    }
    match scan_parameter(src, b, ps) {
        Ok((p, e)) => match scan_params_end(src, b, e) {
            Ok(pe) => Ok((Some(p), pe)),
            Err(x) => Err(x),
        },
        Err((ErrorKind::ParseError, _)) => Ok((None, m)),
        Err(x) => {
            proof {
                lemma_parameter_error_edge(b@, ps as int);
            }
            Err(x)
        },
    }
}

/// Skips trailing spaces, or a comment up to the line feed.
fn skip_comment(b: &[u8], p: usize) -> (r: usize)
    requires
        p <= b@.len(),
        ascii_edge(b@, p as int),
    ensures
        r == after_comment(b@, p as int),
        p <= r <= b@.len(),
        ascii_edge(b@, r as int),
{
    let q = scan(b, p, CharClass::Space);
    proof {
        lemma_run_keeps_edge(b@, p as int, CharClass::Space);
    }
    if q < b.len() && b[q] == 59 {
        proof {
            lemma_run_end(b@, q + 1, CharClass::NotNewline);
            lemma_run_keeps_edge(b@, q + 1, CharClass::NotNewline);
        }
        scan(b, q + 1, CharClass::NotNewline)
    } else {
        q
    }
}

/// The result of reading one line.
enum LineScan<'s> {
    Stop,
    Line(AssemblyLine<'s>, usize),
    Fatal(ErrorKind, usize),
}

/// Reads the line at `i`.
fn scan_line<'s>(src: &'s str, b: &[u8], i: usize) -> (r: LineScan<'s>)
    requires
        b@ == src.spec_bytes(),
        i <= b@.len(),
        ascii_edge(b@, i as int),
    ensures
        match line_at(b@, i as int) {
            LineOutcome::Stop => r is Stop,
            LineOutcome::Line(l, e) => r matches LineScan::Line(l2, e2) && l2@ == l && e2 == e,
            LineOutcome::Fatal(f, at) => r matches LineScan::Fatal(k, at2) && describes(k, f)
                && at2 == at,
        },
        r matches LineScan::Line(_, e) ==> i < e <= b@.len() && ascii_edge(b@, e as int),
        r matches LineScan::Fatal(_, at) ==> at <= b@.len() && ascii_edge(b@, at as int),
{
    let l_end = scan(b, i, CharClass::Alnum);
    proof {
        lemma_run_end(b@, i as int, CharClass::Alnum);
        lemma_run_keeps_edge(b@, i as int, CharClass::Alnum);
    }
    let c_end = if i < l_end && l_end < b.len() && b[l_end] == 58 {
        l_end + 1
    } else {
        l_end
    };
    let sp = scan(b, c_end, CharClass::Space);
    proof {
        lemma_run_keeps_edge(b@, c_end as int, CharClass::Space);
    }
    if sp == c_end {
        return LineScan::Stop;
    }
    if i < l_end && !class_contains(CharClass::Alpha, b[i]) {
        return LineScan::Fatal(ErrorKind::InvalidLabelName, i);
    }
    let label = if i < l_end {
        Some(substring(src, i, l_end))
    } else {
        None
    };
    let m_end = scan(b, sp, CharClass::Alpha);
    proof {
        lemma_run_end(b@, sp as int, CharClass::Alpha);
        lemma_run_keeps_edge(b@, sp as int, CharClass::Alpha);
    }
    if m_end == sp {
        let e = skip_comment(b, sp);
        let line = AssemblyLine { label, command: None };
        return LineScan::Line(line, e);
    }
    let (first, pe) = match scan_operand_part(src, b, m_end) {
        Ok(x) => x,
        Err((k, at)) => {
            return LineScan::Fatal(k, at);
        },
    };
    let e = skip_comment(b, pe);
    match build_command(src, b, sp, m_end, first) {
        Ok(c) => LineScan::Line(AssemblyLine { label, command: Some(c) }, e),
        Err(k) => LineScan::Fatal(k, e),
    }
}

/// The lines that follow one ending at `p`, appended to `acc`: each after
/// one or more line feeds, up to the first place where no line can be
/// read. Gives the lines and where the last one ends.
pub open spec fn lines_from(s: Seq<u8>, p: int, acc: Seq<LineModel>) -> Result<
    (Seq<LineModel>, int),
    (Fault, int),
>
    decreases s.len() - p,
{
    let q = run_end(s, p, CharClass::Newline);
    if q == p {
        Ok((acc, p))
    } else {
        match line_at(s, q) {
            LineOutcome::Stop => Ok((acc, p)),
            LineOutcome::Fatal(f, at) => Err((f, at)),
            LineOutcome::Line(l, e) => if p < e <= s.len() {
                lines_from(s, e, acc.push(l))
            } else {
                Ok((acc, p))
            },
        }
    }
}

/// The lines of the source, after any leading line feeds, and where the
/// last one ends.
pub open spec fn listed_lines(s: Seq<u8>) -> Result<(Seq<LineModel>, int), (Fault, int)> {
    let start = run_end(s, 0, CharClass::Newline);
    match line_at(s, start) {
        LineOutcome::Stop => Ok((seq![], start)),
        LineOutcome::Fatal(f, at) => Err((f, at)),
        LineOutcome::Line(l, e) => if start < e <= s.len() {
            lines_from(s, e, seq![l])
        } else {
            Ok((seq![], start))
        },
    }
}

/// Only whitespace follows position `p`.
pub open spec fn blank_from(s: Seq<u8>, p: int) -> bool {
    forall|k: int| p <= k < s.len() ==> is_whitespace(#[trigger] s[k])
}

/// The lines of a whole source text; any text left after them but
/// whitespace is a syntax error.
pub open spec fn program_of(s: Seq<u8>) -> Result<Seq<LineModel>, (Fault, int)> {
    match listed_lines(s) {
        Err(x) => Err(x),
        Ok((lines, p)) => if blank_from(s, p) {
            Ok(lines)
        } else {
            Err((Fault::SyntaxError, p))
        },
    }
}

/// The values of a sequence of lines.
pub open spec fn lines_view(v: Seq<AssemblyLine>) -> Seq<LineModel> {
    v.map_values(|l: AssemblyLine| l@)
}

fn scan_blank(b: &[u8], p: usize) -> (r: bool)
    requires
        p <= b@.len(),
    ensures
        r == blank_from(b@, p as int),
{
    let mut k = p;
    while k < b.len()
        invariant
            p <= k <= b@.len(),
            forall|m: int| p <= m < k ==> is_whitespace(#[trigger] b@[m]),
        decreases b@.len() - k,
    {
        let c = b[k];
        if !(c == 32 || (9 <= c && c <= 13)) {
            return false;
        }
        k = k + 1;
    }
    true
}

/// Reads all lines of a source text.
pub(crate) fn scan_program<'s>(src: &'s str) -> (r: Result<Vec<AssemblyLine<'s>>, (ErrorKind, usize)>)
    ensures
        match program_of(src.spec_bytes()) {
            Ok(lines) => r matches Ok(v) && lines_view(v@) == lines,
            Err(f) => fails_with(r, f),
        },
        r matches Err((_, at)) ==> at <= src.spec_bytes().len() && ascii_edge(
            src.spec_bytes(),
            at as int,
        ),
{
    let b = src.as_bytes();
    let ghost s = b@;
    let start = scan(b, 0, CharClass::Newline);
    proof {
        lemma_run_keeps_edge(s, 0, CharClass::Newline);
    }
    let mut lines: Vec<AssemblyLine<'s>> = Vec::new();
    let mut p: usize = start;
    match scan_line(src, b, start) {
        LineScan::Stop => {
            assert(lines_view(lines@) =~= seq![]);
        },
        LineScan::Fatal(k, at) => {
            return Err((k, at));
        },
        LineScan::Line(l, e) => {
            lines.push(l);
            p = e;
            assert(lines_view(lines@) =~= seq![l@]);
            loop
                invariant
                    b@ == s,
                    s == src.spec_bytes(),
                    p <= s.len(),
                    ascii_edge(s, p as int),
                    listed_lines(s) == lines_from(s, p as int, lines_view(lines@)),
                ensures
                    p <= s.len(),
                    ascii_edge(s, p as int),
                    listed_lines(s) == Ok::<_, (Fault, int)>((lines_view(lines@), p as int)),
                decreases s.len() - p,
            {
                let q = scan(b, p, CharClass::Newline);
                proof {
                    lemma_run_keeps_edge(s, p as int, CharClass::Newline);
                }
                if q == p {
                    break;
                }
                match scan_line(src, b, q) {
                    LineScan::Stop => {
                        break;
                    },
                    LineScan::Fatal(k, at) => {
                        return Err((k, at));
                    },
                    LineScan::Line(l, e) => {
                        let ghost before = lines_view(lines@);
                        lines.push(l);
                        assert(lines_view(lines@) =~= before.push(l@));
                        p = e;
                    },
                }
            }
        },
    }
    if scan_blank(b, p) {
        Ok(lines)
    } else {
        Err((ErrorKind::SyntaxError, p))
    }
}

/// The error that reports `kind` where `at` bytes of `input` have been read.
fn error_at<'s>(input: &'s str, kind: ErrorKind, at: usize) -> (r: Error<&'s str>)
    requires
        at <= input.spec_bytes().len(),
        ascii_edge(input.spec_bytes(), at as int),
    ensures
        r.kind == kind,
        r.input.spec_bytes() == input.spec_bytes().subrange(at as int, input.spec_bytes().len() as int),
{
    Error { input: suffix(input, at), kind }
}

/// Reads a label at the start of `input`: a letter, then letters and
/// digits. Returns the rest of the input and the label.
pub fn parse_label<'s>(input: &'s str) -> (r: Result<(&'s str, &'s str), Error<&'s str>>)
    ensures
        match label_at(input.spec_bytes(), 0) {
            Ok((l, e)) => r matches Ok((rest, lab)) && lab.spec_bytes() == l
                && rest.spec_bytes() == input.spec_bytes().subrange(e, input.spec_bytes().len() as int),
            Err((f, at)) => r matches Err(err) && reports(err, input.spec_bytes(), f, at),
        },
{
    let b = input.as_bytes();
    if 0 < b.len() && class_contains(CharClass::Alpha, b[0]) {
        let e = scan(b, 0, CharClass::Alnum);
        proof {
            lemma_run_end(b@, 0, CharClass::Alnum);
            lemma_run_keeps_edge(b@, 0, CharClass::Alnum);
        }
        Ok((suffix(input, e), substring(input, 0, e)))
    } else {
        Err(error_at(input, ErrorKind::InvalidLabelName, 0))
    }
}

/// Reads a direction at the start of `input`: `/label`, `/N` or `/-N`.
/// Returns the rest of the input and the direction.
pub fn parse_direction<'s>(input: &'s str) -> (r: Result<(&'s str, Direction<'s>), Error<&'s str>>)
    ensures
        match direction_at(input.spec_bytes(), 0) {
            Ok((d, e)) => r matches Ok((rest, d2)) && d2@ == d
                && rest.spec_bytes() == input.spec_bytes().subrange(e, input.spec_bytes().len() as int),
            Err((f, at)) => r matches Err(err) && reports(err, input.spec_bytes(), f, at),
        },
{
    let b = input.as_bytes();
    match scan_direction(input, b, 0) {
        Ok((d, e)) => Ok((suffix(input, e), d)),
        Err((k, at)) => {
            proof {
                lemma_parameter_error_edge(b@, 0);
            }
            Err(error_at(input, k, at))
        },
    }
}

/// Reads a parameter at the start of `input`: a direction, a bare label or
/// a number. Returns the rest of the input and the parameter.
pub fn parse_parameter<'s>(input: &'s str) -> (r: Result<(&'s str, Parameter<'s>), Error<&'s str>>)
    ensures
        match parameter_at(input.spec_bytes(), 0) {
            Ok((p, e)) => r matches Ok((rest, p2)) && p2@ == p
                && rest.spec_bytes() == input.spec_bytes().subrange(e, input.spec_bytes().len() as int),
            Err((f, at)) => r matches Err(err) && reports(err, input.spec_bytes(), f, at),
        },
{
    let b = input.as_bytes();
    match scan_parameter(input, b, 0) {
        Ok((p, e)) => Ok((suffix(input, e), p)),
        Err((k, at)) => {
            proof {
                lemma_parameter_error_edge(b@, 0);
            }
            Err(error_at(input, k, at))
        },
    }
}

/// Reads one line at the start of `input`. Returns the rest of the input
/// and the line. Where the text does not start with an optional label
/// followed by whitespace, the error is `ParseError` with the whole input.
pub fn parse_assembly_line<'s>(input: &'s str) -> (r: Result<(&'s str, AssemblyLine<'s>), Error<&'s str>>)
    ensures
        match line_at(input.spec_bytes(), 0) {
            LineOutcome::Line(l, e) => r matches Ok((rest, l2)) && l2@ == l
                && rest.spec_bytes() == input.spec_bytes().subrange(e, input.spec_bytes().len() as int),
            LineOutcome::Fatal(f, at) => r matches Err(err) && reports(err, input.spec_bytes(), f, at),
            LineOutcome::Stop => r matches Err(err) && reports(
                err,
                input.spec_bytes(),
                Fault::ParseError,
                0,
            ),
        },
{
    let b = input.as_bytes();
    match scan_line(input, b, 0) {
        LineScan::Line(l, e) => Ok((suffix(input, e), l)),
        LineScan::Fatal(k, at) => Err(error_at(input, k, at)),
        LineScan::Stop => Err(error_at(input, ErrorKind::ParseError, 0)),
    }
}

impl<'s> AssemblyLine<'s> {
    /// The label the line defines, if any.
    pub fn label(&self) -> (r: Option<&'s str>)
        ensures
            self@.label == match r {
                Some(l) => Some(l.spec_bytes()),
                None => None,
            },
    {
        self.label
    }

    /// The command on the line, if any.
    pub fn command(&self) -> (r: Option<Command<'s>>)
        ensures
            self@.command == match r {
                Some(c) => Some(c@),
                None => None,
            },
    {
        self.command
    }
}

/// A command's numbers fit in 12 bits where they become words or the
/// location counter.
pub open spec fn command_wf(c: CommandModel) -> bool {
    match c {
        CommandModel::Directive(Directive::Org { address }) => address.wf(),
        CommandModel::Directive(Directive::Data { value }) => is_word(value as int),
        CommandModel::Directive(Directive::Reserve { amount }) => is_word(amount as int),
        _ => true,
    }
}

pub open spec fn line_wf(l: LineModel) -> bool {
    l.command matches Some(c) ==> command_wf(c)
}

/// Every line read from text has its numbers in 12 bits.
proof fn lemma_line_wf(s: Seq<u8>, i: int)
    ensures
        line_at(s, i) matches LineOutcome::Line(l, _) ==> line_wf(l),
{
}

proof fn lemma_lines_from_wf(s: Seq<u8>, p: int, acc: Seq<LineModel>)
    requires
        forall|k: int| 0 <= k < acc.len() ==> line_wf(#[trigger] acc[k]),
    ensures
        lines_from(s, p, acc) matches Ok((lines, _)) ==> forall|k: int|
            0 <= k < lines.len() ==> line_wf(#[trigger] lines[k]),
    decreases s.len() - p,
{
    let q = run_end(s, p, CharClass::Newline);
    if q != p {
        lemma_line_wf(s, q);
        if let LineOutcome::Line(l, e) = line_at(s, q) {
            if p < e <= s.len() {
                let acc2 = acc.push(l);
                assert forall|k: int| 0 <= k < acc2.len() implies line_wf(#[trigger] acc2[k]) by {
                    if k < acc.len() {
                        assert(acc2[k] == acc[k]);
                    }
                }
                lemma_lines_from_wf(s, e, acc2);
            }
        }
    }
}

/// The lines of a program have their numbers in 12 bits.
pub proof fn lemma_program_wf(s: Seq<u8>)
    ensures
        program_of(s) matches Ok(lines) ==> forall|k: int|
            0 <= k < lines.len() ==> line_wf(#[trigger] lines[k]),
{
    let start = run_end(s, 0, CharClass::Newline);
    lemma_line_wf(s, start);
    if let LineOutcome::Line(l, e) = line_at(s, start) {
        if start < e <= s.len() {
            lemma_lines_from_wf(s, e, seq![l]);
        }
    }
}

/// The number of line feeds among the first `n` bytes of `s`.
pub open spec fn newlines_before(s: Seq<u8>, n: int) -> nat
    decreases n,
{
    if n <= 0 {
        0
    } else {
        newlines_before(s, n - 1) + if s[n - 1] == 10 {
            1nat
        } else {
            0nat
        }
    }
}

/// The line (counting from 0) of `source` at which `remaining`, the input
/// that an error left, starts.
pub fn error_line(source: &str, remaining: &str) -> (r: usize)
    requires
        remaining.spec_bytes().len() <= source.spec_bytes().len(),
    ensures
        r == newlines_before(
            source.spec_bytes(),
            source.spec_bytes().len() - remaining.spec_bytes().len(),
        ),
{
    let b = source.as_bytes();
    let n = b.len() - remaining.as_bytes().len();
    let mut count: usize = 0;
    let mut i: usize = 0;
    while i < n
        invariant
            b@ == source.spec_bytes(),
            n <= b@.len(),
            i <= n,
            count == newlines_before(b@, i as int),
            count <= i,
        decreases n - i,
    {
        if b[i] == 10 {
            count = count + 1;
        }
        i = i + 1;
    }
    count
}

} // verus!
