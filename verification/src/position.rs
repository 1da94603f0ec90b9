//! Source positions of characters and tokens.
use vstd::prelude::*;
use crate::cursor::FancyChar;

verus! {

/// A position in the source: the line (counting from 0) and the byte index of
/// the character relative to the start of that line.
#[derive(Debug, Clone, Copy, PartialEq, Eq, Structural)]
pub struct PositionInfo {
    /// Line number, counting from 0
    pub line: usize,
    /// Byte index of the character relative to the start of the line
    pub index: usize,
}

/// The span of a token: the position of its first and of its last character.
#[derive(Debug, Clone, Copy, PartialEq, Eq, Structural)]
pub struct TokenPosition {
    pub from: PositionInfo,
    pub to: PositionInfo,
}

impl PositionInfo {
    /// The span of a token made of the single character at this position.
    pub fn to_single_letter_token_position(self) -> (r: TokenPosition)
        ensures
            r.from == self,
            r.to == self,
    {
        TokenPosition { from: self, to: self }
    }
}

impl TokenPosition {
    /// The span from the character `a` to the character `b`.
    pub fn from_to(a: &FancyChar, b: &FancyChar) -> (r: TokenPosition)
        ensures
            r.from == a.pos,
            r.to == b.pos,
    {
        TokenPosition { from: a.pos, to: b.pos }
    }

    /// The placeholder span that diagnostics carry while no real span is tracked:
    /// both ends at line 0, index 0.
    pub fn temp_default() -> (r: TokenPosition)
        ensures
            r.from == (PositionInfo { line: 0, index: 0 }),
            r.to == (PositionInfo { line: 0, index: 0 }),
    {
        TokenPosition { from: PositionInfo { line: 0, index: 0 }, to: PositionInfo { line: 0, index: 0 } }
    }
}

} // verus!
