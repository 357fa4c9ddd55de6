use aaaasm::interpreter::{Instruction, Interpreter};
use aaaasm::parser::{
    matching_operand_formats, parse_code, parse_instruction, parse_operand, parse_operands,
    LineError, Operand, ParseError,
};

#[test]
fn parse_one_number_test() {
    let ops = parse_operands(&vec!["101"]);
    assert_eq!(ops, Ok(vec![Operand::Number(101)]));
}

#[test]
fn parse_one_register_test() {
    let ops = parse_operands(&vec!["r2"]);
    assert_eq!(ops, Ok(vec![Operand::Register(2)]));
}

#[test]
fn parse_multiple_test() {
    let ops = parse_operands(&vec!["r2", "123", "r5", "109"]);
    assert_eq!(ops, Ok(vec![Operand::Register(2), Operand::Number(123),
                            Operand::Register(5), Operand::Number(109)]));
}

#[test]
fn parse_register_fail() {
    let ops = parse_operands(&vec!["r"]);
    assert!(ops.is_err());
}

#[test]
fn parse_register_fail2() {
    let ops = parse_operands(&vec!["rfoo"]);
    assert!(ops.is_err());
}

#[test]
fn parse_operand_fail() {
    let ops = parse_operands(&vec!["bar"]);
    assert!(ops.is_err());
}

#[test]
fn parse_instruction1_test() {
    let input = "NOOP";
    let goal = Ok(Instruction::NOOP());
    assert_eq!(parse_instruction(input), goal);
}

#[test]
fn parse_instruction2_test() {
    let input = "M2R_LOAD 200 R2";
    let goal = Ok(Instruction::M2R_LOAD(200, 2));
    assert_eq!(parse_instruction(input), goal);
}

#[test]
fn operand_errors_are_distinguished() {
    assert_eq!(parse_operand("r"), Err(ParseError::MissingRegisterNumber));
    assert_eq!(parse_operand("R"), Err(ParseError::MissingRegisterNumber));
    assert_eq!(parse_operand("rfoo"), Err(ParseError::InvalidRegister));
    assert_eq!(parse_operand("bar"), Err(ParseError::InvalidNumber));
    assert_eq!(parse_operand(""), Err(ParseError::EmptyOperand));
    assert_eq!(parse_operand("-"), Err(ParseError::InvalidNumber));
    assert_eq!(parse_operand("+"), Err(ParseError::InvalidNumber));
    assert_eq!(parse_operand("12a"), Err(ParseError::InvalidNumber));
}

#[test]
fn operand_numbers() {
    assert_eq!(parse_operand("0"), Ok(Operand::Number(0)));
    assert_eq!(parse_operand("+7"), Ok(Operand::Number(7)));
    assert_eq!(parse_operand("-42"), Ok(Operand::Number(-42)));
    assert_eq!(parse_operand("007"), Ok(Operand::Number(7)));
    assert_eq!(parse_operand("R-1"), Ok(Operand::Register(-1)));
    assert_eq!(parse_operand("r10"), Ok(Operand::Register(10)));
}

#[test]
fn operand_i32_limits() {
    assert_eq!(parse_operand("2147483647"), Ok(Operand::Number(i32::MAX)));
    assert_eq!(parse_operand("-2147483648"), Ok(Operand::Number(i32::MIN)));
    assert_eq!(parse_operand("2147483648"), Err(ParseError::InvalidNumber));
    assert_eq!(parse_operand("-2147483649"), Err(ParseError::InvalidNumber));
    assert_eq!(parse_operand("99999999999999999999"), Err(ParseError::InvalidNumber));
    assert_eq!(parse_operand("r2147483648"), Err(ParseError::InvalidRegister));
}

#[test]
fn first_bad_operand_decides() {
    assert_eq!(parse_operands(&vec!["1", "r", "bar"]), Err(ParseError::MissingRegisterNumber));
    assert_eq!(parse_operands(&vec![]), Ok(vec![]));
}

#[test]
fn operand_methods() {
    let r = Operand::Register(3);
    let n = Operand::Number(-3);
    assert!(r.is_register() && !r.is_number());
    assert!(n.is_number() && !n.is_register());
    assert!(r.type_matches(&Operand::Register(0)));
    assert!(!r.type_matches(&n));
    assert_eq!(r.inner(), 3);
    assert_eq!(n.inner(), -3);
    assert!(matching_operand_formats(&vec![r, n], &vec![Operand::Register(0), Operand::Number(0)]));
    assert!(!matching_operand_formats(&vec![r, n], &vec![Operand::Number(0), Operand::Number(0)]));
    assert!(!matching_operand_formats(&vec![r], &vec![Operand::Register(0), Operand::Number(0)]));
}

#[test]
fn parse_every_mnemonic() {
    let cases = [
        ("NOOP", Instruction::NOOP()),
        ("LOAD -5", Instruction::LOAD(-5)),
        ("R2A_LOAD R1", Instruction::R2A_LOAD(1)),
        ("M2R_LOAD 7 r3", Instruction::M2R_LOAD(7, 3)),
        ("M2A_LOAD 8", Instruction::M2A_LOAD(8)),
        ("A2R_STORE R0", Instruction::A2R_STORE(0)),
        ("A2M_STORE 9", Instruction::A2M_STORE(9)),
        ("R2M_STORE R3 50", Instruction::R2M_STORE(3, 50)),
        ("I_ADD 10", Instruction::I_ADD(10)),
        ("JUMP 4", Instruction::JUMP(4)),
        ("JUMP_NEG 0", Instruction::JUMP_NEG(0)),
    ];
    for (line, ins) in cases {
        assert_eq!(parse_instruction(line), Ok(ins));
    }
}

#[test]
fn parse_instruction_errors() {
    assert_eq!(parse_instruction("FOO 1"), Err(ParseError::UnknownInstruction));
    assert_eq!(parse_instruction("R_ADD R1"), Err(ParseError::UnknownInstruction));
    assert_eq!(parse_instruction("noop"), Err(ParseError::UnknownInstruction));
    assert_eq!(parse_instruction("LOAD R1"), Err(ParseError::BadArguments));
    assert_eq!(parse_instruction("LOAD"), Err(ParseError::BadArguments));
    assert_eq!(parse_instruction("NOOP 1"), Err(ParseError::BadArguments));
    assert_eq!(parse_instruction("M2R_LOAD R2 200"), Err(ParseError::BadArguments));
    assert_eq!(parse_instruction("FOO bar"), Err(ParseError::InvalidNumber));
    assert_eq!(parse_instruction(""), Err(ParseError::BlankLine));
    assert_eq!(parse_instruction("  \t "), Err(ParseError::BlankLine));
}

#[test]
fn parse_instruction_whitespace() {
    assert_eq!(parse_instruction("  LOAD \t 5  \r"), Ok(Instruction::LOAD(5)));
}

#[test]
fn parse_code_skips_blank_lines() {
    let src = "LOAD 5\n\nA2R_STORE R1\r\n  \nI_ADD 2\n";
    assert_eq!(
        parse_code(src),
        Ok(vec![Instruction::LOAD(5), Instruction::A2R_STORE(1), Instruction::I_ADD(2)])
    );
    assert_eq!(parse_code(""), Ok(vec![]));
    assert_eq!(parse_code("NOOP"), Ok(vec![Instruction::NOOP()]));
}

#[test]
fn parse_code_reports_line() {
    let src = "LOAD 5\n\nLOAD R1\nFOO\n";
    assert_eq!(parse_code(src), Err(LineError { line: 3, error: ParseError::BadArguments }));
    assert_eq!(parse_code("NOOP\nBAR"), Err(LineError { line: 2, error: ParseError::UnknownInstruction }));
}

#[test]
fn parsed_program_runs() {
    let src = "LOAD 3\nA2M_STORE 7\nM2R_LOAD 7 R2\nI_ADD -10\nJUMP_NEG 6\nNOOP\nR2A_LOAD R2\n";
    let prog = parse_code(src).unwrap();
    let mut state = Interpreter::new(prog);
    assert_eq!(state.run_program(), Ok(3));
    assert_eq!(state.registers[2], 3);
    assert_eq!(state.memory[7], 3);
}

#[test]
fn operand_from_str() {
    assert_eq!("R3".parse::<Operand>(), Ok(Operand::Register(3)));
    assert_eq!("-8".parse::<Operand>(), Ok(Operand::Number(-8)));
    assert_eq!("x".parse::<Operand>(), Err(ParseError::InvalidNumber));
}

#[test]
fn vertical_tab_and_form_feed_separate_tokens() {
    assert_eq!(parse_instruction("LOAD\u{0B}5"), Ok(Instruction::LOAD(5)));
    assert_eq!(parse_instruction("\u{0C}M2A_LOAD\u{0C}3"), Ok(Instruction::M2A_LOAD(3)));
}

#[test]
fn operand_from_str_empty() {
    assert_eq!("".parse::<Operand>(), Err(ParseError::EmptyOperand));
    assert_eq!("r".parse::<Operand>(), Err(ParseError::MissingRegisterNumber));
}
