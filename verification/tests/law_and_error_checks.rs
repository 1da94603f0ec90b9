use pseudocode::ast::ProgramRoot;
use pseudocode::compiler::Compiler;
use pseudocode::error::{ParseFail, ParserError};
use pseudocode::ir::IrStatement;
use pseudocode::cursor::FancyChar;
use pseudocode::lexer::{Lexer, LexerError};
use pseudocode::lmc::{Instruction, Program};
use pseudocode::position::PositionInfo;
use pseudocode::token::Token;
use pseudocode::type_checker::TypeChecker;
use pseudocode::optimiser::Optimiser;
use pseudocode::parser::Parser;
use pseudocode::position::TokenPosition;
use pseudocode::qbe_compiler::Compiler as QbeCompiler;
use pseudocode::token::TokenType;
use pseudocode::type_checker::{Type, TypeError, TypeErrors};

fn parse(source: &str) -> ProgramRoot {
    let mut parser = Parser::from(source);
    match parser.parse_checked() {
        Ok(program) => program,
        Err(e) => panic!("failed to parse {:?}: {:?}", source, e),
    }
}

fn undeclared(name: &str) -> TypeError {
    TypeError::UndeclaredVariable { variable: name.to_string(), range: TokenPosition::temp_default() }
}

#[test]
fn merging_type_errors_is_associative() {
    let a = TypeErrors::SingleErr(undeclared("a"));
    let b = TypeErrors::MultipleErrs(vec![undeclared("b"), undeclared("c")]);
    let c = TypeErrors::SingleErr(TypeError::ExpectedBooleanForCondition {
        got: Type::Int,
        range: TokenPosition::temp_default(),
    });
    let left = a.merge(&b).merge(&c);
    let right = a.merge(&b.merge(&c));
    assert_eq!(left, right);
    assert_eq!(
        left,
        TypeErrors::MultipleErrs(vec![
            undeclared("a"),
            undeclared("b"),
            undeclared("c"),
            TypeError::ExpectedBooleanForCondition {
                got: Type::Int,
                range: TokenPosition::temp_default(),
            },
        ])
    );
}

#[test]
fn optimising_never_lengthens_a_program() {
    for source in ["x = 5\nprint(x)\n", "a = 1 + 2\nb = a * 3\nprint(b)\n", "i = 0\nwhile i < 3\ni = i + 1\nendwhile\n"] {
        let program = Compiler::compile_checked(parse(source)).expect("compiles");
        let before = program.0.len();
        let optimised = Optimiser::new(program).optimise_checked().expect("optimises");
        assert!(optimised.0.len() <= before);
    }
}

#[test]
fn lmc_expressions_give_back_their_temporaries() {
    let program = Compiler::compile_checked(parse("a = 1 + 2\nb = 3 + 4\nc = (5 + 6) + 7\n"))
        .expect("compiles");
    let temporaries: Vec<&String> = program
        .0
        .iter()
        .filter_map(|line| line.label.as_ref())
        .filter(|label| label.starts_with("temp_"))
        .collect();
    assert_eq!(temporaries, vec!["temp_0", "temp_1"]);
}

#[test]
fn lmc_declares_each_data_word_once() {
    let program = Compiler::compile_checked(parse("x = 1\nx = 1 + x\nif x > 1 then\nx = x * 2\nendif\nprint(x)\n"))
        .expect("compiles");
    let mut labels: Vec<&String> = Vec::new();
    let halt = program.0.iter().position(|line| line.get_operand().is_none() && line.inst.get_mnemonic() == "HLT").expect("halts");
    for line in &program.0[halt + 1..] {
        let label = line.label.as_ref().expect("data words are labelled");
        assert!(!labels.contains(&label), "{} declared twice", label);
        labels.push(label);
    }
    assert!(labels.contains(&&"variable_x".to_string()));
    assert!(labels.contains(&&"literal_1".to_string()));
}

#[test]
fn qbe_compiling_more_keeps_what_was_emitted() {
    let short = QbeCompiler::compile_checked(parse("x = 2\ny = x + 1\n")).expect("compiles");
    let long = QbeCompiler::compile_checked(parse("x = 2\ny = x + 1\nif y > 1 then\nz = 1\nendif\n"))
        .expect("compiles");
    let short_start = &short.functions[0].blocks[0].items;
    let long_start = &long.functions[0].blocks[0].items;
    let emitted: &[IrStatement] = &short_start[..short_start.len() - 1];
    assert_eq!(&long_start[..emitted.len()], emitted);
}

#[test]
fn lexer_stays_at_eof() {
    let mut lexer = Lexer::from("x");
    assert_eq!(lexer.bump().expect("token").token_type, TokenType::Identifier);
    let first = lexer.bump().expect("token");
    assert_eq!(first.token_type, TokenType::Eof);
    let second = lexer.bump().expect("token");
    assert_eq!(first, second);
    assert_eq!(lexer.is_eof(), Ok(true));
}

#[test]
fn lexer_peek_does_not_advance() {
    let mut lexer = Lexer::from("a + b");
    let peeked = lexer.peek().expect("token");
    let bumped = lexer.bump().expect("token");
    assert_eq!(peeked, bumped);
    assert_eq!(lexer.peek().expect("token").token_type, TokenType::Plus);
}

#[test]
fn lexer_reports_unexpected_character() {
    let mut lexer = Lexer::from("x = @");
    lexer.bump().expect("identifier");
    lexer.bump().expect("assign");
    assert!(matches!(lexer.bump(), Err(LexerError::UnexpectedCharacter(c)) if c.v == '@'));
}

#[test]
fn lexer_reports_unterminated_string() {
    let mut lexer = Lexer::from("\"abc");
    assert!(matches!(lexer.bump(), Err(LexerError::UnterminatedString(open, _)) if open.v == '"'));
}

#[test]
fn lexer_reports_unknown_escape() {
    let mut lexer = Lexer::from("\"a\\qb\"");
    assert!(matches!(lexer.bump(), Err(LexerError::UnknownCharacterEscape(_, c)) if c.v == 'q'));
}

#[test]
fn parser_refuses_number_too_large() {
    let mut parser = Parser::from("x = 99999999999999999999\n");
    assert!(matches!(parser.parse_checked(), Err(ParseFail::InvalidNumber(t)) if t.literal == "99999999999999999999"));
}

#[test]
fn parser_reports_missing_then() {
    let mut parser = Parser::from("if x\ny = 1\nendif\n");
    assert!(matches!(
        parser.parse_checked(),
        Err(ParseFail::Error(ParserError::ExpectedAGotB(TokenType::Then, _)))
    ));
}

#[test]
fn parser_reports_statement_it_cannot_start() {
    let mut parser = Parser::from(")\n");
    assert!(matches!(
        parser.parse_checked(),
        Err(ParseFail::Error(ParserError::FailedToParseStatementGot(t))) if t.token_type == TokenType::RightParen
    ));
}

#[test]
fn parser_passes_on_lexer_errors() {
    let mut parser = Parser::from("x = @\n");
    assert!(matches!(
        parser.parse_checked(),
        Err(ParseFail::Error(ParserError::LexerError(LexerError::UnexpectedCharacter(_))))
    ));
}

#[test]
fn parser_reports_unclosed_paren() {
    let mut parser = Parser::from("x = (1 + 2\n");
    assert!(matches!(
        parser.parse_checked(),
        Err(ParseFail::Error(ParserError::UnclosedParen(_)))
    ));
}

#[test]
fn unterminated_string_points_past_its_last_character() {
    let mut lexer = Lexer::from("\"ab");
    assert_eq!(
        lexer.bump(),
        Err(LexerError::UnterminatedString(
            FancyChar { v: '"', pos: PositionInfo { line: 0, index: 0 } },
            FancyChar { v: '"', pos: PositionInfo { line: 0, index: 3 } },
        ))
    );
}

#[test]
fn last_line_ends_with_eof_not_newline() {
    let mut lexer = Lexer::from("ab // c");
    assert_eq!(lexer.bump().expect("token").token_type, TokenType::Identifier);
    let eof = Token {
        token_type: TokenType::Eof,
        literal: "\0".to_string(),
        pos: PositionInfo { line: 0, index: 7 }.to_single_letter_token_position(),
    };
    assert_eq!(lexer.bump(), Ok(eof.clone()));
    assert_eq!(lexer.bump(), Ok(eof));
    let mut lexer = Lexer::from("a\nb");
    assert_eq!(lexer.bump().expect("token").token_type, TokenType::Identifier);
    assert_eq!(lexer.bump().expect("token").token_type, TokenType::Newline);
    assert_eq!(lexer.bump().expect("token").token_type, TokenType::Identifier);
    assert_eq!(lexer.bump().expect("token").token_type, TokenType::Eof);
}

#[test]
fn keyword_literal_is_its_text() {
    let mut lexer = Lexer::from("endprocedure");
    let token = lexer.bump().expect("token");
    assert_eq!(token.token_type, TokenType::EndProcedure);
    assert_eq!(token.literal, "endprocedure");
}

#[test]
fn missing_operand_is_reported_at_eof() {
    let mut parser = Parser::from("1 +");
    assert_eq!(
        parser.parse_checked(),
        Err(ParseFail::Error(ParserError::FailedToParseStatementGot(Token {
            token_type: TokenType::Eof,
            literal: "\0".to_string(),
            pos: PositionInfo { line: 0, index: 3 }.to_single_letter_token_position(),
        })))
    );
}

#[test]
fn type_errors_do_not_cascade() {
    let program = parse("a = x\nb = a + 1\nc = b");
    assert_eq!(
        TypeChecker::new().check(&program),
        Some(TypeErrors::SingleErr(undeclared("x")))
    );
}

#[test]
fn merged_label_reaches_the_first_line() {
    let mut program = Program::new();
    program.push(None, Instruction::Bra("l1".to_string()));
    program.push(Some("l1".to_string()), Instruction::Bra("l2".to_string()));
    program.push(Some("l2".to_string()), Instruction::Hlt);
    let optimised = Optimiser::new(program).optimise_checked().expect("optimises");
    assert_eq!(optimised.0.len(), 2);
    assert_eq!(optimised.get_program(), "             BRA merged_l1_l2\nmerged_l1_l2 HLT\n");
}
