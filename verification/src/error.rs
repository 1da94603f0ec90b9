//! The errors of the parser.
use vstd::prelude::*;
use crate::ast::{Expression, SpecExpression};
use crate::lexer::LexerError;
use crate::token::{SpecToken, Token, TokenType};

verus! {

/// Why a program could not be parsed.
#[derive(Debug, PartialEq)]
pub enum ParserError {
    LexerError(LexerError),
    /// Expected 1, got 2
    ExpectedAGotB(TokenType, Token),
    /// Expected end of a file or a newline, got
    ExpectedEofOrNewline(Token),
    /// Expected a prefix (e.g., number, identifier) but got something else
    ExpectedExpressionGot(Token),
    UnexpectedToken(Token),
    /// Attempts to convert a non-identifier token to an identifier struct
    TokenIsNotAnIdentifier(Token),
    ExpressionIsNotAnIdentifier(Expression),
    /// Attempts to convert a non-numer token to an integer literal
    NotANumber(Token),
    /// Unclosed parenthesis, 1. Opening parenthesis
    UnclosedParen(Token),
    /// Expected a Boolean but got something else
    NotABoolean(Token),
    /// Expected a String but got something else
    NotAString(Token),
    /// Expected a prefix operator but got something else
    NotAPrefixOperator(Token),
    /// Failed to parse statement because of an unexpected token
    FailedToParseStatementGot(Token),
}

/// What a parser error is, with its tokens and expression taken by their models.
pub enum SpecParserError {
    LexerError(LexerError),
    ExpectedAGotB(TokenType, SpecToken),
    ExpectedEofOrNewline(SpecToken),
    ExpectedExpressionGot(SpecToken),
    UnexpectedToken(SpecToken),
    TokenIsNotAnIdentifier(SpecToken),
    ExpressionIsNotAnIdentifier(SpecExpression),
    NotANumber(SpecToken),
    UnclosedParen(SpecToken),
    NotABoolean(SpecToken),
    NotAString(SpecToken),
    NotAPrefixOperator(SpecToken),
    FailedToParseStatementGot(SpecToken),
}

impl ParserError {
    /// What this error is.
    pub open spec fn model(self) -> SpecParserError {
        match self {
            ParserError::LexerError(e) => SpecParserError::LexerError(e),
            ParserError::ExpectedAGotB(t, b) => SpecParserError::ExpectedAGotB(t, b@),
            ParserError::ExpectedEofOrNewline(t) => SpecParserError::ExpectedEofOrNewline(t@),
            ParserError::ExpectedExpressionGot(t) => SpecParserError::ExpectedExpressionGot(t@),
            ParserError::UnexpectedToken(t) => SpecParserError::UnexpectedToken(t@),
            ParserError::TokenIsNotAnIdentifier(t) => SpecParserError::TokenIsNotAnIdentifier(t@),
            ParserError::ExpressionIsNotAnIdentifier(e) => SpecParserError::ExpressionIsNotAnIdentifier(
                e.model(),
            ),
            ParserError::NotANumber(t) => SpecParserError::NotANumber(t@),
            ParserError::UnclosedParen(t) => SpecParserError::UnclosedParen(t@),
            ParserError::NotABoolean(t) => SpecParserError::NotABoolean(t@),
            ParserError::NotAString(t) => SpecParserError::NotAString(t@),
            ParserError::NotAPrefixOperator(t) => SpecParserError::NotAPrefixOperator(t@),
            ParserError::FailedToParseStatementGot(t) => SpecParserError::FailedToParseStatementGot(
                t@,
            ),
        }
    }
}

impl From<LexerError> for ParserError {
    fn from(e: LexerError) -> (r: ParserError) {
        ParserError::LexerError(e)
    }
}

impl vstd::std_specs::convert::FromSpecImpl<LexerError> for ParserError {
    open spec fn obeys_from_spec() -> bool {
        true
    }

    open spec fn from_spec(e: LexerError) -> ParserError {
        ParserError::LexerError(e)
    }
}

/// How parsing stops short: with an error, or at a number whose digits do not
/// make an `i64` (which the language leaves undefined, and the parser refuses
/// to go past).
#[derive(Debug, PartialEq)]
pub enum ParseFail {
    Error(ParserError),
    InvalidNumber(Token),
}

/// What a `ParseFail` is.
pub enum SpecFail {
    Error(SpecParserError),
    InvalidNumber(SpecToken),
}

impl ParseFail {
    pub open spec fn model(self) -> SpecFail {
        match self {
            ParseFail::Error(e) => SpecFail::Error(e.model()),
            ParseFail::InvalidNumber(t) => SpecFail::InvalidNumber(t@),
        }
    }
}

/// A failure that carries a lexer error.
pub open spec fn lex_fail(e: LexerError) -> SpecFail {
    SpecFail::Error(SpecParserError::LexerError(e))
}

/// A failure that carries a lexer error.
pub fn lexer_fail(e: LexerError) -> (r: ParseFail)
    ensures
        r.model() == lex_fail(e),
{
    ParseFail::Error(ParserError::LexerError(e))
}

/// A failure that carries a parser error.
pub fn parser_fail(e: ParserError) -> (r: ParseFail)
    ensures
        r.model() == SpecFail::Error(e.model()),
{
    ParseFail::Error(e)
}

} // verus!
