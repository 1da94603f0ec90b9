use pseudocode::cursor::{Cursor, FancyChar};
use pseudocode::lexer::Lexer;
use pseudocode::position::{PositionInfo, TokenPosition};
use pseudocode::token::{Token, TokenType};

/// Bumps the lexer once per expected token and compares.
fn check_tokens(src: &str, expected: Vec<Token>) {
    let mut lexer = Lexer::from(src);
    for t in expected {
        assert_eq!(lexer.bump(), Ok(t));
    }
}

fn is_ascii_alphabetic(_c: &Cursor, arg: Option<FancyChar>) -> bool {
    arg.is_some_and(|c| c.v.is_ascii_alphabetic())
}

#[test]
fn test_bump_and_peek() {
    let test_str = "ab\ncc\nd";
    let mut cursor = Cursor::from(test_str);
    assert_eq!(cursor.bump(), Some(FancyChar { v: 'a', pos: PositionInfo { line: 0, index: 0 } }));
    assert_eq!(cursor.bump(), Some(FancyChar { v: 'b', pos: PositionInfo { line: 0, index: 1 } }));
    assert_eq!(cursor.bump(), Some(FancyChar { v: 'c', pos: PositionInfo { line: 1, index: 0 } }));
    assert_eq!(cursor.bump(), Some(FancyChar { v: 'c', pos: PositionInfo { line: 1, index: 1 } }));
    assert_eq!(cursor.bump(), Some(FancyChar { v: 'd', pos: PositionInfo { line: 2, index: 0 } }));
    assert_eq!(cursor.peek(), None);
    assert_eq!(cursor.bump(), None);
}

#[test]
fn test_all() {
    let test_str = " \n  \r\n\t ==============Hello World!".to_string();
    let mut cursor = Cursor::from(&*test_str);
    cursor.eat_whitespace();
    cursor.eat_while(|_cursor: &Cursor, c: Option<FancyChar>| c.map_or(false, |c| c.v == '='));
    assert_eq!(cursor.peek(), Some(FancyChar { v: 'H', pos: PositionInfo { line: 2, index: 16 } }));
    let mut buf = String::new();
    assert_eq!(
        cursor.collect_while(&mut buf, is_ascii_alphabetic),
        Some(TokenPosition {
            from: PositionInfo { line: 2, index: 16 },
            to: PositionInfo { line: 2, index: 20 }
        })
    );
    assert_eq!(buf, "Hello");
    let mut buf = String::new();
    assert_eq!(cursor.collect_while(&mut buf, is_ascii_alphabetic), None);
    assert_eq!(buf, "");
    assert_eq!(cursor.peek(), Some(FancyChar { v: ' ', pos: PositionInfo { line: 2, index: 21 } }));
    cursor.eat_whitespace();
    let mut buf = String::from("Testing ");
    assert_eq!(
        cursor.collect_while(&mut buf, is_ascii_alphabetic),
        Some(TokenPosition {
            from: PositionInfo { line: 2, index: 22 },
            to: PositionInfo { line: 2, index: 26 }
        })
    );
    assert_eq!(buf, "Testing World");
    assert_eq!(cursor.bump(), Some(FancyChar { v: '!', pos: PositionInfo { line: 2, index: 27 } }));
    assert_eq!(cursor.bump(), None);
}

/// Test identifier, string and number
#[test]
fn test_str_num() {
    let test_str = "identifier123 12345\"hello\\n\"";
    check_tokens(
        test_str,
        vec![
        Token {
            token_type: TokenType::Identifier,
            literal: "identifier123".to_string(),
            pos: TokenPosition {
                from: PositionInfo { line: 0, index: 0 },
                to: PositionInfo { line: 0, index: 12 },
            },
        },
        Token {
            token_type: TokenType::Number,
            literal: "12345".to_string(),
            pos: TokenPosition {
                from: PositionInfo { line: 0, index: 14 },
                to: PositionInfo { line: 0, index: 18 },
            },
        },
        Token {
            token_type: TokenType::String,
            literal: "hello\n".to_string(),
            pos: TokenPosition {
                from: PositionInfo { line: 0, index: 19 },
                to: PositionInfo { line: 0, index: 27 },
            },
        },
        ],
    );
}

/// Test comparison
#[test]
fn test_compare_and_logic() {
    let test_str = "(a>b OR a<=b) AND (a>=b OR b<a OR a==b) AND c!=d";
    check_tokens(
        test_str,
        vec![
        Token {
            token_type: TokenType::LeftParen,
            literal: "(".to_string(),
            pos: PositionInfo { line: 0, index: 0 }.to_single_letter_token_position(),
        },
        Token {
            token_type: TokenType::Identifier,
            literal: "a".to_string(),
            pos: PositionInfo { line: 0, index: 1 }.to_single_letter_token_position(),
        },
        Token {
            token_type: TokenType::Greater,
            literal: ">".to_string(),
            pos: PositionInfo { line: 0, index: 2 }.to_single_letter_token_position(),
        },
        ],
    );
}

/// The source of the string scenario: a comment, an assignment of a string,
/// blank and comment lines, then strings that run over several lines.
const STRING_SOURCE: &str = "// Strings\nsomeText=\"Computer Science\"\n\n// A string over two lines\n\n\"Test\ning\"\n\"Hello\nWorld\n!\"\n";

/// The source of the variable scenario.
const VARIABLE_SOURCE: &str = "// Variables\nx=3\ny=1\nname=\"Bob\"\nglobal userid = 123\n";

#[test]
fn test_string() {
    check_tokens(
        STRING_SOURCE,
        vec![
        Token {
            token_type: TokenType::Identifier,
            literal: "someText".to_string(),
            pos: TokenPosition {
                from: PositionInfo { line: 1, index: 0 },
                to: PositionInfo { line: 1, index: 7 },
            },
        },
        Token {
            token_type: TokenType::Assign,
            literal: "=".to_string(),
            pos: PositionInfo { line: 1, index: 8 }.to_single_letter_token_position(),
        },
        Token {
            token_type: TokenType::String,
            literal: "Computer Science".to_string(),
            pos: TokenPosition {
                from: PositionInfo { line: 1, index: 9 },
                to: PositionInfo { line: 1, index: 26 },
            },
        },
        Token {
            token_type: TokenType::Newline,
            literal: "\n".to_string(),
            pos: PositionInfo { line: 1, index: 27 }.to_single_letter_token_position(),
        },
        Token {
            token_type: TokenType::String,
            literal: "Test\ning".to_string(),
            pos: TokenPosition {
                from: PositionInfo { line: 5, index: 0 },
                to: PositionInfo { line: 6, index: 3 },
            },
        },
        Token {
            token_type: TokenType::Newline,
            literal: "\n".to_string(),
            pos: PositionInfo { line: 6, index: 4 }.to_single_letter_token_position(),
        },
        Token {
            token_type: TokenType::String,
            literal: "Hello\nWorld\n!".to_string(),
            pos: TokenPosition {
                from: PositionInfo { line: 7, index: 0 },
                to: PositionInfo { line: 9, index: 1 },
            },
        },
        ],
    );
}

#[test]
fn test_variable() {
    check_tokens(
        VARIABLE_SOURCE,
        vec![
        Token {
            token_type: TokenType::Identifier,
            literal: "x".to_string(),
            pos: PositionInfo { line: 1, index: 0 }.to_single_letter_token_position(),
        },
        Token {
            token_type: TokenType::Assign,
            literal: "=".to_string(),
            pos: PositionInfo { line: 1, index: 1 }.to_single_letter_token_position(),
        },
        Token {
            token_type: TokenType::Number,
            literal: "3".to_string(),
            pos: PositionInfo { line: 1, index: 2 }.to_single_letter_token_position(),
        },
        Token {
            token_type: TokenType::Newline,
            literal: "\n".to_string(),
            pos: PositionInfo { line: 1, index: 3 }.to_single_letter_token_position(),
        },
        Token {
            token_type: TokenType::Identifier,
            literal: "y".to_string(),
            pos: PositionInfo { line: 2, index: 0 }.to_single_letter_token_position(),
        },
        Token {
            token_type: TokenType::Assign,
            literal: "=".to_string(),
            pos: PositionInfo { line: 2, index: 1 }.to_single_letter_token_position(),
        },
        Token {
            token_type: TokenType::Number,
            literal: "1".to_string(),
            pos: PositionInfo { line: 2, index: 2 }.to_single_letter_token_position(),
        },
        Token {
            token_type: TokenType::Newline,
            literal: "\n".to_string(),
            pos: PositionInfo { line: 2, index: 3 }.to_single_letter_token_position(),
        },
        Token {
            token_type: TokenType::Identifier,
            literal: "name".to_string(),
            pos: TokenPosition {
                from: PositionInfo { line: 3, index: 0 },
                to: PositionInfo { line: 3, index: 3 },
            },
        },
        Token {
            token_type: TokenType::Assign,
            literal: "=".to_string(),
            pos: PositionInfo { line: 3, index: 4 }.to_single_letter_token_position(),
        },
        Token {
            token_type: TokenType::String,
            literal: "Bob".to_string(),
            pos: TokenPosition {
                from: PositionInfo { line: 3, index: 5 },
                to: PositionInfo { line: 3, index: 9 },
            },
        },
        Token {
            token_type: TokenType::Newline,
            literal: "\n".to_string(),
            pos: PositionInfo { line: 3, index: 10 }.to_single_letter_token_position(),
        },
        Token {
            token_type: TokenType::Global,
            literal: "global".to_string(),
            pos: TokenPosition {
                from: PositionInfo { line: 4, index: 0 },
                to: PositionInfo { line: 4, index: 5 },
            },
        },
        Token {
            token_type: TokenType::Identifier,
            literal: "userid".to_string(),
            pos: TokenPosition {
                from: PositionInfo { line: 4, index: 7 },
                to: PositionInfo { line: 4, index: 12 },
            },
        },
        Token {
            token_type: TokenType::Assign,
            literal: "=".to_string(),
            pos: PositionInfo { line: 4, index: 14 }.to_single_letter_token_position(),
        },
        Token {
            token_type: TokenType::Number,
            literal: "123".to_string(),
            pos: TokenPosition {
                from: PositionInfo { line: 4, index: 16 },
                to: PositionInfo { line: 4, index: 18 },
            },
        },
        Token {
            token_type: TokenType::Newline,
            literal: "\n".to_string(),
            pos: PositionInfo { line: 4, index: 19 }.to_single_letter_token_position(),
        },
        Token {
            token_type: TokenType::Eof,
            literal: "\0".to_string(),
            pos: PositionInfo { line: 4, index: 19 }.to_single_letter_token_position(),
        },
        ],
    );
}
