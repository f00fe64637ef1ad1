use brainfuck_parser::BrainfuckProgram;
use brainfuck_parser::Instruction;
use brainfuck_parser::ParseError;
use brainfuck_parser::parse;
use brainfuck_parser::parse_instruction;
use brainfuck_parser::parse_loop;

#[test]
fn test_parse_instruction() {
    // Check parsing individual instructions
    assert_eq!(parse_instruction(">", 0), Ok(Some((Instruction::RightShift, 1))));
    assert_eq!(parse_instruction("<", 0), Ok(Some((Instruction::LeftShift, 1))));
    assert_eq!(parse_instruction("+", 0), Ok(Some((Instruction::Increment, 1))));
    assert_eq!(parse_instruction("-", 0), Ok(Some((Instruction::Decrement, 1))));
    assert_eq!(parse_instruction(".", 0), Ok(Some((Instruction::Output, 1))));
    assert_eq!(parse_instruction(",", 0), Ok(Some((Instruction::Input, 1))));
}

#[test]
fn test_parse_basic_loop_brainfuck() {
    // Check parsing basic single loop
    parse_loop("[->+<]", 0).unwrap();
}

#[test]
fn test_parse_basic_brainfuck() {
    // super simple loop
    parse("+>>+[->+<]-").unwrap();
}

#[test]
fn test_parse_brainfuck_hello_world() {
    parse("++++++++[>++++[>++>+++>+++>+<<<<-]>+>+>->>+[<]<-]>>.>---.+++++++..+++.>>.<-.<.+++.------.--------.>>+.>++.").unwrap();
}

#[test]
fn test_parse_brainfuck_rot13() {
    parse("-,+[-[>>++++[>++++++++<-]<+<-[>+>+>-[>>>]<[[>+<-]>>+>]<<<<<-]]>>>[-]+>--[-[<->+++[-]]]<[++++++++++++<[>-[>+>>]>[+[<+>-]>+>>]<<<<<-]>>[<+>-]>[-[-<<[-]>>]<<[<<->>-]>>]<<[<<+>>-]]<[-]<.[-]<-,+]").unwrap();
}

#[test]
#[should_panic]
fn test_parse_wrong_instruction() {
    // Check if wrong instruction correctly gets detected as such
    parse_instruction("s", 0).unwrap().unwrap();
}

#[test]
fn test_parse_single_symbols() {
    assert_eq!(parse(">"), Ok(vec![Instruction::RightShift]));
    assert_eq!(parse("<"), Ok(vec![Instruction::LeftShift]));
    assert_eq!(parse("+"), Ok(vec![Instruction::Increment]));
    assert_eq!(parse("-"), Ok(vec![Instruction::Decrement]));
    assert_eq!(parse("."), Ok(vec![Instruction::Output]));
    assert_eq!(parse(","), Ok(vec![Instruction::Input]));
}

#[test]
fn test_parse_empty_input() {
    assert_eq!(parse(""), Ok(vec![]));
}

#[test]
fn test_parse_empty_loop() {
    assert_eq!(parse("[]"), Ok(vec![Instruction::Loop(vec![])]));
}

#[test]
fn test_parse_loop_body_order() {
    let expected = vec![
        Instruction::Decrement,
        Instruction::RightShift,
        Instruction::Increment,
        Instruction::LeftShift,
    ];
    assert_eq!(parse_loop("[->+<]", 0), Ok((expected, 6)));
    let body = vec![
        Instruction::Decrement,
        Instruction::RightShift,
        Instruction::Increment,
        Instruction::LeftShift,
    ];
    assert_eq!(parse("[->+<]"), Ok(vec![Instruction::Loop(body)]));
}

#[test]
fn test_parse_mixed_program() {
    let body = vec![
        Instruction::Decrement,
        Instruction::RightShift,
        Instruction::Increment,
        Instruction::LeftShift,
    ];
    let expected = vec![
        Instruction::Increment,
        Instruction::RightShift,
        Instruction::RightShift,
        Instruction::Increment,
        Instruction::Loop(body),
        Instruction::Decrement,
    ];
    assert_eq!(parse("+>>+[->+<]-"), Ok(expected));
}

#[test]
fn test_parse_rejects_foreign_character() {
    assert!(parse("s").is_err());
    assert_eq!(
        parse("++s++"),
        Err(ParseError::UnexpectedTrailingInput { pos: 2 })
    );
}

#[test]
fn test_parse_unmatched_open_bracket() {
    assert_eq!(parse("[+"), Err(ParseError::UnterminatedLoop { pos: 2 }));
    assert_eq!(parse("["), Err(ParseError::UnterminatedLoop { pos: 1 }));
}

#[test]
fn test_parse_foreign_character_inside_loop() {
    // recognition of the loop body stops at `s`, where the `]` is then missing
    assert_eq!(parse("[s]"), Err(ParseError::UnterminatedLoop { pos: 1 }));
}

#[test]
fn test_parse_unmatched_close_bracket() {
    assert_eq!(parse("+]"), Err(ParseError::UnexpectedTrailingInput { pos: 1 }));
    assert_eq!(parse("]"), Err(ParseError::UnexpectedTrailingInput { pos: 0 }));
}

#[test]
fn test_parse_deeply_nested_loops() {
    let depth = 1000;
    let mut text = String::new();
    for _ in 0..depth {
        text.push('[');
    }
    for _ in 0..depth {
        text.push(']');
    }
    let mut level = parse(&text).unwrap();
    for _ in 0..depth {
        assert_eq!(level.len(), 1);
        match level.pop().unwrap() {
            Instruction::Loop(body) => level = body,
            other => panic!("expected a loop, found {:?}", other),
        }
    }
    assert_eq!(level.len(), 0);
}

#[test]
fn test_program_wraps_instructions() {
    let instructions = parse("+>.").unwrap();
    let program = BrainfuckProgram::new(instructions);
    let expected = vec![
        Instruction::Increment,
        Instruction::RightShift,
        Instruction::Output,
    ];
    assert_eq!(program.instructions(), &expected);
}
