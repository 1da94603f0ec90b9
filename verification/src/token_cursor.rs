//! The parser's view of the source: a stream of tokens with one and two
//! tokens of look-ahead.
use vstd::prelude::*;
use crate::error::{ParserError, SpecParserError};
use crate::lexer::{Lexer, LexerError, result_view};
use crate::token::{SpecToken, Token, TokenType};

verus! {

/// The next token, without advancing.
pub open spec fn peek(l: Lexer) -> Result<SpecToken, LexerError> {
    l.spec_bump().1
}

/// The next two tokens, without advancing.
pub open spec fn peek_two(l: Lexer) -> Result<(SpecToken, SpecToken), LexerError> {
    match l.spec_bump().1 {
        Err(e) => Err(e),
        Ok(a) => match l.spec_bump().0.spec_bump().1 {
            Err(e) => Err(e),
            Ok(b) => Ok((a, b)),
        },
    }
}

/// Takes the next token, which must be of kind `tt`.
pub open spec fn expect(l: Lexer, tt: TokenType) -> (Lexer, Result<SpecToken, SpecParserError>) {
    let (n, r) = l.spec_bump();
    match r {
        Ok(t) => if t.token_type == tt {
            (n, Ok(t))
        } else {
            (n, Err(SpecParserError::ExpectedAGotB(tt, t)))
        },
        Err(e) => (n, Err(SpecParserError::LexerError(e))),
    }
}

/// The end of a statement: a `Newline` (taken), or, left in place, an `else`
/// or an `endif` that closes the enclosing block; with `eof`, also the end of
/// the text (taken).
pub open spec fn expect_end(l: Lexer, eof: bool) -> (Lexer, Result<SpecToken, SpecParserError>) {
    match peek(l) {
        Err(e) => (l, Err(SpecParserError::LexerError(e))),
        Ok(t) => if t.token_type == TokenType::Newline || (eof && t.token_type
            == TokenType::Eof) {
            (l.spec_bump().0, Ok(t))
        } else if t.token_type == TokenType::EndIf || t.token_type == TokenType::Else {
            (l, Ok(t))
        } else {
            (l, Err(SpecParserError::ExpectedAGotB(TokenType::Newline, t)))
        },
    }
}

/// Takes every `Newline` token in front.
pub open spec fn eat_newline(l: Lexer) -> (Lexer, Result<(), LexerError>)
    decreases l.measure(),
{
    match peek(l) {
        Err(e) => (l, Err(e)),
        Ok(t) => if t.token_type == TokenType::Newline {
            proof {
                lemma_step(l);
            }
            eat_newline(l.spec_bump().0)
        } else {
            (l, Ok(()))
        },
    }
}

/// A token taken: the lexer stays well formed and its measure does not grow;
/// it drops unless the token is `Eof`.
pub proof fn lemma_step(l: Lexer)
    ensures
        l.spec_bump().1 is Ok ==> l.wf(),
        l.wf() ==> l.spec_bump().0.wf(),
        l.wf() ==> l.spec_bump().0.measure() <= l.measure(),
        l.wf() ==> (l.spec_bump().1 matches Ok(t) && t.token_type != TokenType::Eof
            ==> l.spec_bump().0.measure() < l.measure()),
        l.wf() ==> l.spec_bump().1 is Err ==> l.spec_bump().0.measure() < l.measure(),
{
    if l.wf() {
        l.lemma_bump();
    }
}

/// `expect` keeps the lexer well formed, and lowers its measure when it
/// succeeds with a kind other than `Eof`.
pub proof fn lemma_expect(l: Lexer, tt: TokenType)
    ensures
        expect(l, tt).1 is Ok ==> l.wf(),
        l.wf() ==> expect(l, tt).0.wf() && expect(l, tt).0.measure() <= l.measure(),
        l.wf() && tt != TokenType::Eof && expect(l, tt).1 is Ok ==> expect(l, tt).0.measure()
            < l.measure(),
{
    lemma_step(l);
}

/// `expect_end` keeps the lexer well formed and never raises its measure.
pub proof fn lemma_expect_end(l: Lexer, eof: bool)
    requires
        l.wf(),
    ensures
        expect_end(l, eof).0.wf(),
        expect_end(l, eof).0.measure() <= l.measure(),
{
    lemma_step(l);
}

/// `eat_newline` keeps the lexer well formed and never raises its measure.
pub proof fn lemma_eat_newline(l: Lexer)
    requires
        l.wf(),
    ensures
        eat_newline(l).0.wf(),
        eat_newline(l).0.measure() <= l.measure(),
    decreases l.measure(),
{
    lemma_step(l);
    if let Ok(t) = peek(l) {
        if t.token_type == TokenType::Newline {
            lemma_eat_newline(l.spec_bump().0);
        }
    }
}

/// The model of a result that carries a token or a parser error.
pub open spec fn token_result(r: Result<Token, ParserError>) -> Result<SpecToken, SpecParserError> {
    match r {
        Ok(t) => Ok(t@),
        Err(e) => Err(e.model()),
    }
}

/// A stream of tokens over a source text.
#[derive(Debug)]
pub struct TokenCursor {
    pub lexer: Lexer,
}

impl TokenCursor {
    /// A stream at the start of `src`.
    pub fn from(src: &str) -> (r: TokenCursor)
        ensures
            r.lexer.wf(),
            r.lexer.cursor.line == 0,
            r.lexer.cursor.pos == 0,
            !r.lexer.line_has_token,
            crate::cursor::describes(r.lexer.cursor, src@),
    {
        TokenCursor { lexer: Lexer::from(src) }
    }

    /// Whether the next token is `Eof`.
    pub fn is_eof(&self) -> (r: Result<bool, LexerError>)
        requires
            self.lexer.wf(),
        ensures
            r == (match peek(self.lexer) {
                Ok(t) => Ok::<bool, LexerError>(t.token_type == TokenType::Eof),
                Err(e) => Err(e),
            }),
    {
        self.lexer.is_eof()
    }

    /// Takes the next token.
    pub fn bump(&mut self) -> (r: Result<Token, LexerError>)
        requires
            old(self).lexer.wf(),
        ensures
            final(self).lexer.wf(),
            (final(self).lexer, result_view(r)) == old(self).lexer.spec_bump(),
    {
        self.lexer.bump()
    }

    /// The next token, without advancing.
    pub fn peek(&self) -> (r: Result<Token, LexerError>)
        requires
            self.lexer.wf(),
        ensures
            result_view(r) == peek(self.lexer),
    {
        self.lexer.peek()
    }

    /// The next two tokens, without advancing.
    pub fn peek_two(&self) -> (r: Result<(Token, Token), LexerError>)
        requires
            self.lexer.wf(),
        ensures
            match r {
                Ok((a, b)) => peek_two(self.lexer) == Ok::<(SpecToken, SpecToken), LexerError>(
                    (a@, b@),
                ),
                Err(e) => peek_two(self.lexer) == Err::<(SpecToken, SpecToken), LexerError>(e),
            },
    {
        let mut lexer = self.lexer.clone();
        proof {
            lemma_step(lexer);
        }
        let a = match lexer.bump() {
            Ok(a) => a,
            Err(e) => {
                return Err(e);
            },
        };
        let b = match lexer.bump() {
            Ok(b) => b,
            Err(e) => {
                return Err(e);
            },
        };
        Ok((a, b))
    }

    /// Takes the next token, which must be of kind `token_type`; else the error
    /// is [`ParserError::ExpectedAGotB`].
    pub fn expect(&mut self, token_type: TokenType) -> (r: Result<Token, ParserError>)
        requires
            old(self).lexer.wf(),
        ensures
            final(self).lexer.wf(),
            (final(self).lexer, token_result(r)) == expect(old(self).lexer, token_type),
    {
        match self.bump() {
            Ok(t) => {
                if t.token_type == token_type {
                    Ok(t)
                } else {
                    Err(ParserError::ExpectedAGotB(token_type, t))
                }
            },
            Err(err) => Err(ParserError::LexerError(err)),
        }
    }

    /// The end of a statement: a `Newline` or the end of the text, taken; or an
    /// `else` or `endif`, left in place.
    pub fn expect_end_of_statement_or_eof(&mut self) -> (r: Result<Token, ParserError>)
        requires
            old(self).lexer.wf(),
        ensures
            final(self).lexer.wf(),
            (final(self).lexer, token_result(r)) == expect_end(old(self).lexer, true),
    {
        self.expect_end(true)
    }

    /// The end of a statement: a `Newline`, taken; or an `else` or `endif`,
    /// left in place.
    pub fn expect_end_of_statement(&mut self) -> (r: Result<Token, ParserError>)
        requires
            old(self).lexer.wf(),
        ensures
            final(self).lexer.wf(),
            (final(self).lexer, token_result(r)) == expect_end(old(self).lexer, false),
    {
        self.expect_end(false)
    }

    fn expect_end(&mut self, eof: bool) -> (r: Result<Token, ParserError>)
        requires
            old(self).lexer.wf(),
        ensures
            final(self).lexer.wf(),
            (final(self).lexer, token_result(r)) == expect_end(old(self).lexer, eof),
    {
        let tok = match self.peek() {
            Ok(t) => t,
            Err(e) => {
                return Err(ParserError::LexerError(e));
            },
        };
        if tok.token_type == TokenType::Newline || (eof && tok.token_type == TokenType::Eof) {
            match self.bump() {
                Ok(_) => Ok(tok),
                Err(e) => Err(ParserError::LexerError(e)),
            }
        } else if tok.token_type == TokenType::EndIf || tok.token_type == TokenType::Else {
            Ok(tok)
        } else {
            Err(ParserError::ExpectedAGotB(TokenType::Newline, tok))
        }
    }

    /// Takes every `Newline` token in front.
    pub fn eat_newline(&mut self) -> (r: Result<(), LexerError>)
        requires
            old(self).lexer.wf(),
        ensures
            final(self).lexer.wf(),
            (final(self).lexer, r) == eat_newline(old(self).lexer),
    {
        loop
            invariant
                self.lexer.wf(),
                eat_newline(self.lexer) == eat_newline(old(self).lexer),
            decreases self.lexer.measure(),
        {
            proof {
                lemma_step(self.lexer);
            }
            let t = match self.peek() {
                Ok(t) => t,
                Err(e) => {
                    return Err(e);
                },
            };
            if t.token_type != TokenType::Newline {
                return Ok(());
            }
            match self.bump() {
                Ok(_) => {},
                Err(e) => {
                    return Err(e);
                },
            }
        }
    }
}

} // verus!
