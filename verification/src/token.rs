//! Tokens produced by the lexer.
use vstd::prelude::*;
use crate::position::TokenPosition;

verus! {

/// The kind of a token.
#[derive(Debug, Clone, Copy, PartialEq, Eq, Structural)]
pub enum TokenType {
    Identifier,
    /// +
    Plus,
    /// -
    Minus,
    /// \*
    Multiply,
    /// /
    Divide,
    /// ^
    Power,
    /// DIV
    Quotient,
    /// MOD
    Modulo,
    /// ==
    Equal,
    /// (
    LeftParen,
    /// )
    RightParen,
    /// =
    Assign,
    /// >
    Greater,
    /// >=
    GreaterEqual,
    /// <
    Lesser,
    /// <=
    LesserEqual,
    /// NOT
    Not,
    /// !=
    NotEqual,
    /// AND
    And,
    /// OR
    Or,
    /// if
    If,
    /// then
    Then,
    /// else
    Else,
    /// elseif
    ElseIf,
    /// endif
    EndIf,
    /// for
    For,
    /// to
    To,
    /// next
    Next,
    /// while
    While,
    /// endwhile
    EndWhile,
    /// do
    Do,
    /// until
    Until,
    /// switch
    Switch,
    /// case
    Case,
    /// :
    Colon,
    /// ,
    Comma,
    /// [
    LeftSquareBracket,
    /// ]
    RightSquareBracket,
    /// default
    Default,
    /// endswitch
    EndSwitch,
    /// true
    True,
    /// false
    False,
    /// .
    Dot,
    Number,
    String,
    Eof,
    Procedure,
    EndProcedure,
    /// global
    Global,
    Newline,
    Return,
}

/// A token: its kind, its text and its span in the source.
#[derive(Debug, Clone, PartialEq)]
pub struct Token {
    pub token_type: TokenType,
    pub literal: String,
    pub pos: TokenPosition,
}

/// What a token is, with its text as a sequence of characters.
pub struct SpecToken {
    pub token_type: TokenType,
    pub literal: Seq<char>,
    pub pos: TokenPosition,
}

impl View for Token {
    type V = SpecToken;

    open spec fn view(&self) -> SpecToken {
        SpecToken { token_type: self.token_type, literal: self.literal@, pos: self.pos }
    }
}

impl Token {
    /// A copy of this token.
    pub fn duplicate(&self) -> (r: Token)
        ensures
            r == *self,
            r@ == self@,
    {
        Token { token_type: self.token_type, literal: self.literal.clone(), pos: self.pos }
    }
}

} // verus!
