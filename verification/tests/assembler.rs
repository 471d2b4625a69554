use mcu_emulator::assembler::lexer::{
    is_sequence_terminator, single_char_token, InstructionKind, Lexer, NumberLiteralKind, Register,
    Token, TokenKind,
};
use mcu_emulator::assembler::location::Location;

fn tokens_of(program: &str) -> Vec<(TokenKind, String, usize, usize)> {
    let mut lexer = Lexer::new(program.as_bytes());
    let mut out = Vec::new();
    while let Some(Token { kind, location, text }) = lexer.next_token() {
        out.push((kind, String::from_utf8(text.to_vec()).unwrap(), location.line, location.col));
    }
    out
}

#[test]
fn locations_count_lines_and_columns_from_one() {
    let start = Location::start();
    assert_eq!(start, Location { index: 0, line: 1, col: 1 });
    let next = start.advance_col().advance_col();
    assert_eq!(next, Location { index: 2, line: 1, col: 3 });
    let below = next.advance_line();
    assert_eq!(below, Location { index: 3, line: 2, col: 1 });
    assert_eq!(below.advance_col(), Location { index: 4, line: 2, col: 2 });
}

#[test]
fn mnemonics_are_lower_case_words() {
    assert_eq!(InstructionKind::from_str(b"nop"), Some(InstructionKind::NOP));
    assert_eq!(InstructionKind::from_str(b"ldi"), Some(InstructionKind::LDI));
    assert_eq!(InstructionKind::from_str(b"rsf"), Some(InstructionKind::RSF));
    assert_eq!(InstructionKind::from_str(b"brn"), Some(InstructionKind::BRN));
    assert_eq!(InstructionKind::from_str(b"NOP"), None);
    assert_eq!(InstructionKind::from_str(b"no"), None);
    assert_eq!(InstructionKind::from_str(b"nops"), None);
    assert_eq!(InstructionKind::from_str(b""), None);
    for name in [
        "nop", "str", "lod", "ldi", "inc", "dec", "mov", "inp", "out", "sep", "rsp", "add", "sub",
        "bor", "and", "cmp", "grt", "les", "brn", "ssj", "rsj", "ret", "ssf", "rsf",
    ] {
        let kind = InstructionKind::from_str(name.as_bytes()).unwrap();
        assert_eq!(format!("{:?}", kind).to_lowercase(), name);
    }
}

#[test]
fn registers_are_a_x_y_and_z() {
    assert_eq!(Register::from_str(b"a"), Some(Register::A));
    assert_eq!(Register::from_str(b"x"), Some(Register::X));
    assert_eq!(Register::from_str(b"y"), Some(Register::Y));
    assert_eq!(Register::from_str(b"z"), Some(Register::Z));
    assert_eq!(Register::from_str(b"b"), None);
    assert_eq!(Register::from_str(b"A"), None);
    assert_eq!(Register::from_str(b"xy"), None);
}

#[test]
fn newline_and_colon_are_tokens_by_themselves() {
    assert_eq!(single_char_token(b'\n'), Some(TokenKind::Newline));
    assert_eq!(single_char_token(b':'), Some(TokenKind::Colon));
    assert_eq!(single_char_token(b';'), None);
    assert_eq!(single_char_token(b'a'), None);
    for c in [b'\n', b':', b' ', b'\t', b'\r', b';'] {
        assert!(is_sequence_terminator(c));
    }
    for c in [b'a', b'0', b'_', b',', b'-'] {
        assert!(!is_sequence_terminator(c));
    }
}

#[test]
fn a_line_is_cut_into_its_words() {
    let tokens = tokens_of("loop: ldi x 0x1F ; load\n  brn loop\n");
    let kinds: Vec<TokenKind> = tokens.iter().map(|t| t.0).collect();
    assert_eq!(
        kinds,
        vec![
            TokenKind::LabelIdentifier,
            TokenKind::Colon,
            TokenKind::Instruction { kind: InstructionKind::LDI },
            TokenKind::RegisterLiteral { register: Register::X },
            TokenKind::NumberLiteral { kind: NumberLiteralKind::Hex },
            TokenKind::Newline,
            TokenKind::Instruction { kind: InstructionKind::BRN },
            TokenKind::LabelIdentifier,
            TokenKind::Newline,
        ]
    );
    let texts: Vec<&str> = tokens.iter().map(|t| t.1.as_str()).collect();
    assert_eq!(texts, vec!["loop", ":", "ldi", "x", "0x1F", "\n", "brn", "loop", "\n"]);
}

#[test]
fn words_carry_the_location_of_their_first_byte() {
    let tokens = tokens_of("ab 12\n  z");
    assert_eq!((tokens[0].2, tokens[0].3), (1, 1));
    assert_eq!((tokens[1].2, tokens[1].3), (1, 4));
    assert_eq!((tokens[3].2, tokens[3].3), (2, 3));
}

#[test]
fn tokens_of_one_byte_carry_the_location_after_them() {
    let tokens = tokens_of("a:\nb");
    assert_eq!(tokens[1].0, TokenKind::Colon);
    assert_eq!((tokens[1].2, tokens[1].3), (1, 3));
    assert_eq!(tokens[2].0, TokenKind::Newline);
    assert_eq!((tokens[2].2, tokens[2].3), (2, 1));
}

#[test]
fn numbers_are_decimal_hexadecimal_or_binary() {
    let tokens = tokens_of("17 0x11 0b10001 0 0b 0xZZ 9lives");
    let kinds: Vec<TokenKind> = tokens.iter().map(|t| t.0).collect();
    assert_eq!(
        kinds,
        vec![
            TokenKind::NumberLiteral { kind: NumberLiteralKind::Decimal },
            TokenKind::NumberLiteral { kind: NumberLiteralKind::Hex },
            TokenKind::NumberLiteral { kind: NumberLiteralKind::Binary },
            TokenKind::NumberLiteral { kind: NumberLiteralKind::Decimal },
            TokenKind::NumberLiteral { kind: NumberLiteralKind::Binary },
            TokenKind::NumberLiteral { kind: NumberLiteralKind::Hex },
            TokenKind::NumberLiteral { kind: NumberLiteralKind::Decimal },
        ]
    );
}

#[test]
fn comments_run_to_the_end_of_their_line() {
    let tokens = tokens_of("; nothing here\nnop ; trailing: words 12\n;last");
    let texts: Vec<&str> = tokens.iter().map(|t| t.1.as_str()).collect();
    assert_eq!(texts, vec!["\n", "nop", "\n"]);
    assert!(tokens_of("").is_empty());
    assert!(tokens_of("   \t ").is_empty());
    assert!(tokens_of("; only a comment").is_empty());
}

#[test]
fn the_lexer_can_be_read_through_its_iterator() {
    let mut lexer = Lexer::new(b"inc a\ndec a");
    let mut iter = lexer.iter();
    let mut count = 0;
    while let Some(token) = iter.next() {
        assert!(!token.text.is_empty());
        count += 1;
    }
    assert_eq!(count, 5);
    assert!(iter.next().is_none());
}

use mcu_emulator::assembler::parser::{
    parse_label_reference, parse_number_literal, parse_radix, parse_register_literal, to_digit,
    unexpected_token, Node, NumberError, ParseError, ParseErrorKind, Parser,
};
use mcu_emulator::assembler::report::{cause_name, kind_name, report_error};

fn lex(program: &str) -> Vec<Token<'_>> {
    let mut lexer = Lexer::new(program.as_bytes());
    let mut out = Vec::new();
    while let Some(token) = lexer.next_token() {
        out.push(token);
    }
    out
}

fn show(node: &Node) -> String {
    match node {
        Node::Label { name } => format!("label {}", String::from_utf8_lossy(name)),
        Node::LabelReference { name } => format!("ref {}", String::from_utf8_lossy(name)),
        Node::Instruction { kind, arguments } => {
            let arguments: Vec<String> = arguments.iter().map(show).collect();
            format!("{:?}({})", kind, arguments.join(", "))
        }
        Node::RegisterLiteral { register } => format!("{:?}", register),
        Node::NumberLiteral { value } => format!("{}", value),
    }
}

fn parse_text(program: &str) -> Result<Vec<String>, String> {
    let tokens = lex(program);
    let mut parser = Parser::new(&tokens);
    match parser.parse() {
        Ok(nodes) => Ok(nodes.iter().map(show).collect()),
        Err(error) => Err(String::from_utf8(report_error(b"prog.s", &error)).unwrap()),
    }
}

#[test]
fn digits_have_their_value_in_a_radix() {
    assert_eq!(to_digit(b'0', 2), Some(0));
    assert_eq!(to_digit(b'1', 2), Some(1));
    assert_eq!(to_digit(b'2', 2), None);
    assert_eq!(to_digit(b'9', 10), Some(9));
    assert_eq!(to_digit(b'a', 10), None);
    assert_eq!(to_digit(b'a', 16), Some(10));
    assert_eq!(to_digit(b'F', 16), Some(15));
    assert_eq!(to_digit(b'g', 16), None);
    assert_eq!(to_digit(b'z', 36), Some(35));
    assert_eq!(to_digit(b'_', 36), None);
}

#[test]
fn numbers_are_read_as_the_standard_library_reads_them() {
    for text in ["0", "7", "255", "256", "999", "", "+", "+5", "-5", "12a", "99999x", "x99999", "0010", "+0255"] {
        let expected = u8::from_str_radix(text, 10).map_err(|e| e.to_string());
        let read = parse_radix(text.as_bytes(), 10).map_err(|e| cause_name(e).to_string());
        assert_eq!(read, expected, "{text}");
    }
    for text in ["ff", "FF", "100", "1g", "", "+a", "0"] {
        let expected = u8::from_str_radix(text, 16).map_err(|e| e.to_string());
        let read = parse_radix(text.as_bytes(), 16).map_err(|e| cause_name(e).to_string());
        assert_eq!(read, expected, "{text}");
    }
    for text in ["101", "11111111", "100000000", "102", ""] {
        let expected = u8::from_str_radix(text, 2).map_err(|e| e.to_string());
        let read = parse_radix(text.as_bytes(), 2).map_err(|e| cause_name(e).to_string());
        assert_eq!(read, expected, "{text}");
    }
    assert_eq!(parse_radix(b"", 10), Err(NumberError::Empty));
    assert_eq!(parse_radix(b"1x", 10), Err(NumberError::InvalidDigit));
    assert_eq!(parse_radix(b"256", 10), Err(NumberError::PosOverflow));
}

#[test]
fn a_token_is_read_as_a_number_a_register_or_a_label() {
    let tokens = lex("0x1F 12 0b101 x loop nop : 0xZZ 300");
    let values: Vec<Option<String>> =
        tokens.iter().map(|t| parse_number_literal(t).ok().map(|n| show(&n))).collect();
    assert_eq!(
        values,
        vec![
            Some("31".to_string()),
            Some("12".to_string()),
            Some("5".to_string()),
            None,
            None,
            None,
            None,
            None,
            None
        ]
    );
    assert!(matches!(
        parse_number_literal(&tokens[7]),
        Err(ParseError { kind: ParseErrorKind::InvalidNumberLiteral { cause: NumberError::InvalidDigit }, .. })
    ));
    assert!(matches!(
        parse_number_literal(&tokens[8]),
        Err(ParseError { kind: ParseErrorKind::InvalidNumberLiteral { cause: NumberError::PosOverflow }, .. })
    ));
    assert!(matches!(
        parse_number_literal(&tokens[3]),
        Err(ParseError { kind: ParseErrorKind::UnexpectedToken { .. }, .. })
    ));
    assert_eq!(show(&parse_register_literal(&tokens[3]).unwrap()), "X");
    assert!(matches!(
        parse_register_literal(&tokens[4]),
        Err(ParseError { kind: ParseErrorKind::UnknownRegister, .. })
    ));
    assert!(matches!(
        parse_register_literal(&tokens[0]),
        Err(ParseError { kind: ParseErrorKind::UnexpectedToken { .. }, .. })
    ));
    assert_eq!(show(&parse_label_reference(&tokens[4]).unwrap()), "ref loop");
    assert_eq!(show(&parse_label_reference(&tokens[5]).unwrap()), "ref nop");
    assert!(parse_label_reference(&tokens[6]).is_err());
    assert!(parse_label_reference(&tokens[1]).is_err());
}

#[test]
fn a_program_is_read_as_labels_and_instructions() {
    let nodes = parse_text("start:\n  ldi x 0x0F ; load\n  inc x\nloop: brn loop\n\n\n  ret").unwrap();
    assert_eq!(
        nodes,
        vec!["label start", "LDI(X, 15)", "INC(X)", "label loop", "BRN(ref loop)", "RET()"]
    );
    assert_eq!(parse_text("").unwrap(), Vec::<String>::new());
    assert_eq!(parse_text("\n\n ; nothing\n").unwrap(), Vec::<String>::new());
    assert_eq!(parse_text("nop").unwrap(), vec!["NOP()"]);
    assert_eq!(parse_text("mov a z\n").unwrap(), vec!["MOV(A, Z)"]);
}

#[test]
fn errors_are_reported_with_their_place() {
    assert_eq!(
        parse_text("ldi x 0x1G\n").unwrap_err(),
        "Error in prog.s at 1:7: Invalid number literal '0x1G'. Cause: invalid digit found in string\n"
    );
    assert_eq!(
        parse_text("nop\nldi x 256").unwrap_err(),
        "Error in prog.s at 2:7: Invalid number literal '256'. Cause: number too large to fit in target type\n"
    );
    assert_eq!(
        parse_text("ldi x : 3").unwrap_err(),
        "Error in prog.s at 1:8: Expected one of number literal, number literal, number literal, label identifier but found ':' \n"
    );
    assert_eq!(
        parse_text("\n 12 nop").unwrap_err(),
        "Error in prog.s at 2:2: Expected one of label identifier but found number literal '12'\n"
    );
    assert_eq!(parse_text("frob x\n").unwrap_err(), "Error in prog.s at 1:1: Unknown error\n");
    assert_eq!(parse_text(": nop").unwrap_err(), "Error in prog.s at 1:2: Expected one of label identifier but found ':' \n");
}

#[test]
fn a_report_names_the_end_of_the_text_and_gives_help() {
    let error = unexpected_token(None, vec![TokenKind::Colon, TokenKind::Newline]);
    assert_eq!(
        String::from_utf8(report_error(b"a.s", &error)).unwrap(),
        "Error in a.s at eof: Expected one of ':', '\\n' but found eof\n"
    );
    let error = ParseError {
        token: None,
        kind: ParseErrorKind::UnknownRegister,
        help: Some("registers are a, x, y and z".to_string()),
    };
    assert_eq!(
        String::from_utf8(report_error(b"a.s", &error)).unwrap(),
        "Error in a.s at eof: Unknown error\nHelp: registers are a, x, y and z\n"
    );
    assert_eq!(kind_name(TokenKind::LabelIdentifier), "label identifier");
    assert_eq!(kind_name(TokenKind::Instruction { kind: InstructionKind::NOP }), "instruction");
    assert_eq!(kind_name(TokenKind::RegisterLiteral { register: Register::A }), "register literal");
}
