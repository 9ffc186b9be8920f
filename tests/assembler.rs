use simplez::assembler::assemble;
use simplez::machine::{Address, Instruction, Memory};
use simplez::syntax::{
    error_line, parse_assembly_line, parse_direction, parse_label, parse_parameter, Command,
    Direction, Directive, ErrorKind, ParamType, Parameter,
};

fn word(m: &Memory, a: usize) -> u16 {
    m.0[a]
}

fn kind_of(src: &str) -> ErrorKind {
    match assemble(src) {
        Ok(_) => panic!("expected an error for {:?}", src),
        Err(e) => e.kind,
    }
}

#[test]
fn encodes_each_instruction() {
    let m = assemble(" st /1\n ld /2\n add /3\n br /4\n bz /5\n clr\n dec\n halt").unwrap();
    let expected: [u16; 8] = [0o0001, 0o1002, 0o2003, 0o3004, 0o4005, 0o5000, 0o6000, 0o7000];
    for (i, w) in expected.iter().enumerate() {
        assert_eq!(word(&m, i), *w);
    }
    assert_eq!(word(&m, 8), 0);
}

#[test]
fn address_operand_is_masked_to_nine_bits() {
    let m = assemble(" ld /600").unwrap();
    assert_eq!(word(&m, 0), 0o1000 | (600 & 0o777));
}

#[test]
fn mnemonics_ignore_case() {
    let a = assemble(" LD /5\n Halt").unwrap();
    let b = assemble(" ld /5\n halt").unwrap();
    assert_eq!(a, b);
}

#[test]
fn forward_reference_matches_earlier_definition() {
    let forward = assemble("  br later\nlater halt").unwrap();
    let earlier = assemble(" org /1\nlater halt\n org /0\n br later").unwrap();
    assert_eq!(forward, earlier);
    assert_eq!(word(&forward, 0), 0o3001);
    assert_eq!(word(&forward, 1), 0o7000);
}

#[test]
fn org_places_code() {
    let m = assemble(" org /10\n ld /3").unwrap();
    assert_eq!(word(&m, 10), 0o1003);
    for a in 0..10 {
        assert_eq!(word(&m, a), 0);
    }
    for a in 11..512 {
        assert_eq!(word(&m, a), 0);
    }
}

#[test]
fn reserve_skips_words() {
    let m = assemble(" ld /1\n res 5\n halt").unwrap();
    assert_eq!(word(&m, 0), 0o1001);
    for a in 1..6 {
        assert_eq!(word(&m, a), 0);
    }
    assert_eq!(word(&m, 6), 0o7000);
}

#[test]
fn reserve_moves_labels() {
    let m = assemble("  br x\n res 3\nx halt").unwrap();
    assert_eq!(word(&m, 0), 0o3004);
    assert_eq!(word(&m, 4), 0o7000);
}

#[test]
fn lines_after_end_are_ignored() {
    let a = assemble(" halt\n end\n ld /5\n data 7").unwrap();
    let b = assemble(" halt\n end").unwrap();
    assert_eq!(a, b);
    assert_eq!(word(&a, 1), 0);
}

#[test]
fn undefined_label_after_end_is_not_an_error() {
    assert!(assemble(" halt\n end\n br nowhere").is_ok());
}

#[test]
fn redefined_label_fails() {
    let src = "x halt\nx halt";
    match assemble(src) {
        Err(e) => {
            assert!(matches!(e.kind, ErrorKind::RedefinedLabel { ref name } if name == "x"));
            assert_eq!(e.input, src);
        },
        Ok(_) => panic!("redefinition accepted"),
    }
}

#[test]
fn undefined_label_fails() {
    let src = " br nowhere";
    match assemble(src) {
        Err(e) => {
            assert!(matches!(e.kind, ErrorKind::UndefinedLabel { ref name } if name == "nowhere"));
            assert_eq!(e.input, src);
        },
        Ok(_) => panic!("undefined label accepted"),
    }
}

#[test]
fn end_to_end_program() {
    let src = "loop: ld /5\n add /6\n bz /done\n br /loop\ndone: halt";
    let m = assemble(src).unwrap();
    assert!(matches!(Instruction::from(word(&m, 0)), Instruction::Load { address: Address(5) }));
    assert!(matches!(
        Instruction::from(word(&m, 2)),
        Instruction::BranchIfZero { address: Address(4) }
    ));
    assert!(matches!(Instruction::from(word(&m, 3)), Instruction::Branch { address: Address(0) }));
    assert!(matches!(Instruction::from(word(&m, 4)), Instruction::Halt));
}

#[test]
fn data_writes_value() {
    let m = assemble(" data 4095\n data /7\n data /-1").unwrap();
    assert_eq!(word(&m, 0), 4095);
    assert_eq!(word(&m, 1), 7);
    assert_eq!(word(&m, 2), 4095);
}

#[test]
fn comments_and_blank_lines() {
    let m = assemble("\n\n  ; heading\nstart ld /5 ; load\n\n\n halt ; stop\n\n").unwrap();
    assert_eq!(word(&m, 0), 0o1005);
    assert_eq!(word(&m, 1), 0o7000);
}

#[test]
fn empty_source_is_blank_memory() {
    assert_eq!(assemble("").unwrap(), Memory::default());
    assert_eq!(assemble("\n\n  \n").unwrap(), Memory::default());
}

#[test]
fn extra_operands_are_ignored() {
    let m = assemble(" ld /5 /6 7").unwrap();
    assert_eq!(word(&m, 0), 0o1005);
}

#[test]
fn error_invalid_instruction_is_lower_case() {
    assert!(matches!(kind_of("  FOO /5"), ErrorKind::InvalidInstruction { ref name } if name == "foo"));
}

#[test]
fn error_missing_parameter() {
    assert!(matches!(kind_of(" ld"), ErrorKind::MissingParameter));
    assert!(matches!(kind_of(" org"), ErrorKind::MissingParameter));
}

#[test]
fn error_invalid_parameter() {
    assert!(matches!(
        kind_of(" ld 5"),
        ErrorKind::InvalidParameter { expected_type: ParamType::Direction }
    ));
    assert!(matches!(
        kind_of(" org x"),
        ErrorKind::InvalidParameter { expected_type: ParamType::Number }
    ));
}

#[test]
fn error_invalid_number() {
    assert!(matches!(kind_of(" data 4096"), ErrorKind::InvalidNumber));
    assert!(matches!(kind_of(" ld /99999"), ErrorKind::InvalidNumber));
}

#[test]
fn error_invalid_label_name() {
    assert!(matches!(kind_of("1abc halt"), ErrorKind::InvalidLabelName));
}

#[test]
fn error_syntax_reports_leftover() {
    let src = " ld /5\nhalt";
    match assemble(src) {
        Err(e) => {
            assert!(matches!(e.kind, ErrorKind::SyntaxError));
            assert_eq!(e.input, "\nhalt");
        },
        Ok(_) => panic!("leftover text accepted"),
    }
    assert!(matches!(kind_of(" ld /5 ?x"), ErrorKind::SyntaxError));
}

#[test]
fn error_position_of_line_fault() {
    let src = " halt\n ld\n halt";
    let e = assemble(src).unwrap_err();
    assert!(matches!(e.kind, ErrorKind::MissingParameter));
    assert_eq!(e.input, "\n halt");
    assert_eq!(error_line(src, e.input), 1);
}

#[test]
fn error_line_counts_line_feeds() {
    assert_eq!(error_line("a\nb\nc", "c"), 2);
    assert_eq!(error_line("abc", "abc"), 0);
    assert_eq!(error_line("a\n", ""), 1);
}

#[test]
fn parse_label_reads_letters_and_digits() {
    let (rest, label) = parse_label("abc12 rest").unwrap();
    assert_eq!(label, "abc12");
    assert_eq!(rest, " rest");
    let e = parse_label("1abc").unwrap_err();
    assert!(matches!(e.kind, ErrorKind::InvalidLabelName));
    assert_eq!(e.input, "1abc");
}

#[test]
fn parse_direction_forms() {
    let (rest, d) = parse_direction("/12;").unwrap();
    assert_eq!(rest, ";");
    assert!(matches!(d, Direction::Address(Address(12))));
    let (_, d) = parse_direction("/-5").unwrap();
    assert!(matches!(d, Direction::Address(Address(4091))));
    let (_, d) = parse_direction("/-0").unwrap();
    assert!(matches!(d, Direction::Address(Address(0))));
    let (rest, d) = parse_direction("/loop x").unwrap();
    assert!(matches!(d, Direction::Label("loop")));
    assert_eq!(rest, " x");
    let e = parse_direction("12").unwrap_err();
    assert!(matches!(e.kind, ErrorKind::ParseError));
}

#[test]
fn parse_parameter_forms() {
    let (_, p) = parse_parameter("42").unwrap();
    assert!(matches!(p, Parameter::Number(42)));
    let (_, p) = parse_parameter("here").unwrap();
    assert!(matches!(p, Parameter::Direction(Direction::Label("here"))));
    let (_, p) = parse_parameter("/3").unwrap();
    assert!(matches!(p, Parameter::Direction(Direction::Address(Address(3)))));
    let e = parse_parameter(";").unwrap_err();
    assert!(matches!(e.kind, ErrorKind::ParseError));
}

#[test]
fn parse_assembly_line_parts() {
    let (rest, line) = parse_assembly_line("top ld /7 ; c\nnext").unwrap();
    assert_eq!(rest, "\nnext");
    assert_eq!(line.label(), Some("top"));
    assert!(matches!(
        line.command(),
        Some(Command::Instruction(Instruction::Load { address: Direction::Address(Address(7)) }))
    ));
    let (_, line) = parse_assembly_line("   ; only a comment").unwrap();
    assert!(line.label().is_none());
    assert!(line.command().is_none());
    let (_, line) = parse_assembly_line(" res 3").unwrap();
    assert!(matches!(
        line.command(),
        Some(Command::Directive(Directive::Reserve { amount: 3 }))
    ));
    let e = parse_assembly_line("halt").unwrap_err();
    assert!(matches!(e.kind, ErrorKind::ParseError));
}

#[test]
fn org_beyond_memory_wraps_to_low_bits() {
    let m = assemble(" org /600\n halt").unwrap();
    assert_eq!(word(&m, 600 - 512), 0o7000);
}

#[test]
fn org_takes_a_bare_number() {
    let m = assemble(" org 3\n clr").unwrap();
    assert_eq!(word(&m, 3), 0o5000);
}

#[test]
fn label_after_end_still_resolves() {
    let m = assemble(" br x\n end\nx halt").unwrap();
    assert_eq!(word(&m, 0), 0o3001);
    assert_eq!(word(&m, 1), 0);
}
