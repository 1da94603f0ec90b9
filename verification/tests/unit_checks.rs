use pseudocode::error::ParserError;
use pseudocode::lmc::{parse_u16, Instruction, Program, ProgramLine, LDA, OUT, STA};
use pseudocode::parser::{get_precedence, Precedence};
use pseudocode::pretty_print::{decimal_string, natural_string};
use pseudocode::token::TokenType;
use pseudocode::token_cursor::TokenCursor;
use pseudocode::type_checker::{get_result, TypeError, TypeErrors};
use pseudocode::position::TokenPosition;

#[test]
fn numbers_are_written_in_decimal() {
    assert_eq!(natural_string(0), "0");
    assert_eq!(natural_string(120), "120");
    assert_eq!(natural_string(u64::MAX), "18446744073709551615");
    assert_eq!(decimal_string(-45), "-45");
    assert_eq!(decimal_string(i64::MIN), "-9223372036854775808");
    assert_eq!(decimal_string(7), "7");
}

#[test]
fn operands_read_as_u16() {
    assert_eq!(parse_u16("12"), Some(12));
    assert_eq!(parse_u16("+12"), Some(12));
    assert_eq!(parse_u16("65535"), Some(65535));
    assert_eq!(parse_u16("65536"), None);
    assert_eq!(parse_u16(""), None);
    assert_eq!(parse_u16("+"), None);
    assert_eq!(parse_u16("1a"), None);
    assert_eq!(parse_u16("-1"), None);
}

#[test]
fn operators_bind_by_precedence() {
    assert_eq!(get_precedence(TokenType::Plus), Precedence::Sum);
    assert_eq!(get_precedence(TokenType::Multiply), Precedence::Product);
    assert_eq!(get_precedence(TokenType::Modulo), Precedence::Product);
    assert_eq!(get_precedence(TokenType::Or), Precedence::LogicalOr);
    assert_eq!(get_precedence(TokenType::Lesser), Precedence::LessGreater);
    assert_eq!(get_precedence(TokenType::GreaterEqual), Precedence::Equals);
    assert_eq!(get_precedence(TokenType::LeftParen), Precedence::Call);
    assert_eq!(get_precedence(TokenType::Newline), Precedence::Lowest);
    assert!(Precedence::Product.index() > Precedence::Sum.index());
}

#[test]
fn instructions_have_codes_and_mnemonics() {
    let lda = Instruction::Lda("x".to_string());
    assert_eq!(lda.get_numeric(), LDA);
    assert_eq!(lda.get_mnemonic(), "LDA x");
    assert_eq!(lda.get_operand(), Some("x"));
    assert_eq!(lda.with_operand("y").get_mnemonic(), "LDA y");
    assert_eq!(Instruction::Out.get_numeric(), OUT);
    assert_eq!(Instruction::Out.get_operand(), None);
    let dat = Instruction::dat(42);
    assert_eq!(dat.get_mnemonic(), "DAT 42");
    assert_eq!(dat.with_operand("+7").get_mnemonic(), "DAT 7");
    let line = ProgramLine::new(Some("l".to_string()), Instruction::Sta("v".to_string()));
    assert!(line.is(STA));
    assert_eq!(line.get_operand(), Some("v"));
}

#[test]
fn programs_are_edited_line_by_line() {
    let mut program = Program::new();
    program.push(None, Instruction::Inp);
    program.push(Some("a".to_string()), Instruction::Out);
    program.push_dat(Some("n".to_string()), 3);
    assert_eq!(program.get_instruction(1).get_operand(), None);
    assert_eq!(program.longest_label_width(), 1);
    let removed = program.remove(0);
    assert_eq!(removed.inst.get_mnemonic(), "INP");
    assert_eq!(program.get_program(), "a OUT\nn DAT 3\n");
}

#[test]
fn token_cursor_expects_tokens() {
    let mut cursor = TokenCursor::from("x = 1");
    assert_eq!(cursor.is_eof(), Ok(false));
    let (first, second) = cursor.peek_two().expect("two tokens");
    assert_eq!(first.token_type, TokenType::Identifier);
    assert_eq!(second.token_type, TokenType::Assign);
    assert_eq!(cursor.expect(TokenType::Identifier).expect("identifier").literal, "x");
    assert!(matches!(
        cursor.expect(TokenType::Number),
        Err(ParserError::ExpectedAGotB(TokenType::Number, t)) if t.token_type == TokenType::Assign
    ));
}

#[test]
fn gathered_errors_become_an_outcome() {
    assert_eq!(get_result(None), Ok(()));
    let error = TypeErrors::SingleErr(TypeError::UndeclaredVariable {
        variable: "v".to_string(),
        range: TokenPosition::temp_default(),
    });
    let mut gathered = None;
    TypeErrors::merge_with::<()>(&mut gathered, Err(error));
    TypeErrors::merge_with(&mut gathered, Ok(()));
    assert!(matches!(gathered, Some(TypeErrors::SingleErr(_))));
    assert!(matches!(get_result(gathered), Err(TypeErrors::SingleErr(_))));
}
