//! The lexer: turns source text into tokens, one at a time.
use vstd::prelude::*;
use crate::cursor::{describes, lemma_char_on_line, Cursor, FancyChar};
use crate::position::{PositionInfo, TokenPosition};
use crate::text::{
    lemma_utf8_width_prefix, source_lines, utf8_width, char_is_numeric, chars_eq_str, is_ascii_alphabetic, is_numeric, push_char,
    spec_is_ascii_alphabetic, string_from_str,
};
use crate::token::{SpecToken, Token, TokenType};

verus! {

/// The errors of the lexer.
#[derive(Debug, Clone, Copy, PartialEq, Eq, Structural)]
pub enum LexerError {
    UnexpectedCharacter(FancyChar),
    /// 1. The \
    ///
    /// 2. The escape character
    UnknownCharacterEscape(FancyChar, FancyChar),
    /// 1. Character that began the string
    ///
    /// 2. The position where the end of the string is expected
    UnterminatedString(FancyChar, FancyChar),
}

/// A lexer over a source text.
///
/// A `Newline` token ends each line on which a token was found; lines with
/// only blanks or a comment give none.
#[derive(Debug)]
pub struct Lexer {
    pub cursor: Cursor,
    /// Whether a token was found on the current line since its last `Newline`.
    pub line_has_token: bool,
}

pub open spec fn result_view(r: Result<Token, LexerError>) -> Result<SpecToken, LexerError> {
    match r {
        Ok(t) => Ok(t@),
        Err(e) => Err(e),
    }
}

pub open spec fn tok(tt: TokenType, lit: Seq<char>, from: PositionInfo, to: PositionInfo) -> SpecToken {
    SpecToken { token_type: tt, literal: lit, pos: TokenPosition { from, to } }
}

/// The keywords: the kind of token each word gives, and the token's text.
pub open spec fn keyword(s: Seq<char>) -> Option<(TokenType, Seq<char>)> {
    if s == "MOD"@ {
        Some((TokenType::Modulo, "MOD"@))
    } else if s == "DIV"@ {
        Some((TokenType::Quotient, "DIV"@))
    } else if s == "AND"@ {
        Some((TokenType::And, "AND"@))
    } else if s == "OR"@ {
        Some((TokenType::Or, "OR"@))
    } else if s == "NOT"@ {
        Some((TokenType::Not, "NOT"@))
    } else if s == "for"@ {
        Some((TokenType::For, "for"@))
    } else if s == "to"@ {
        Some((TokenType::To, "to"@))
    } else if s == "next"@ {
        Some((TokenType::Next, "next"@))
    } else if s == "while"@ {
        Some((TokenType::While, "while"@))
    } else if s == "endwhile"@ {
        Some((TokenType::EndWhile, "endwhile"@))
    } else if s == "do"@ {
        Some((TokenType::Do, "do"@))
    } else if s == "until"@ {
        Some((TokenType::Until, "until"@))
    } else if s == "true"@ {
        Some((TokenType::True, "true"@))
    } else if s == "false"@ {
        Some((TokenType::False, "false"@))
    } else if s == "switch"@ {
        Some((TokenType::Switch, "switch"@))
    } else if s == "case"@ {
        Some((TokenType::Case, "case"@))
    } else if s == "default"@ {
        Some((TokenType::Default, "default"@))
    } else if s == "endswitch"@ {
        Some((TokenType::EndSwitch, "endswitch"@))
    } else if s == "if"@ {
        Some((TokenType::If, "if"@))
    } else if s == "else"@ {
        Some((TokenType::Else, "else"@))
    } else if s == "then"@ {
        Some((TokenType::Then, "then"@))
    } else if s == "elseif"@ {
        Some((TokenType::ElseIf, "elseif"@))
    } else if s == "endif"@ {
        Some((TokenType::EndIf, "endif"@))
    } else if s == "global"@ {
        Some((TokenType::Global, "global"@))
    } else if s == "return"@ {
        Some((TokenType::Return, "return"@))
    } else if s == "procedure"@ {
        Some((TokenType::Procedure, "procedure"@))
    } else if s == "endprocedure"@ {
        Some((TokenType::EndProcedure, "endprocedure"@))
    } else {
        None
    }
}

/// The token a word gives: a keyword, or else an identifier.
pub open spec fn word_token(lit: Seq<char>, pos: TokenPosition) -> SpecToken {
    match keyword(lit) {
        Some((tt, l)) => SpecToken { token_type: tt, literal: l, pos },
        None => SpecToken { token_type: TokenType::Identifier, literal: lit, pos },
    }
}

/// A word or a number that starts with `c`, the rest taken from the cursor:
/// the cursor after it, its text and its span.
pub open spec fn literal_after(c: FancyChar, cur: Cursor, ident: bool) -> (
    Cursor,
    Seq<char>,
    TokenPosition,
) {
    let (c2, taken) = cur.collect_line(ident);
    let lit = seq![c.v] + taken.map_values(|f: FancyChar| f.v);
    let pos = if taken.len() == 0 {
        TokenPosition { from: c.pos, to: c.pos }
    } else {
        TokenPosition { from: c.pos, to: taken.last().pos }
    };
    (c2, lit, pos)
}

/// The rest of a string literal, after its opening quote `open`: `lit` holds
/// what was read so far and `last` the position of the last character read.
pub open spec fn string_rest(cur: Cursor, open: FancyChar, lit: Seq<char>, last: PositionInfo) -> (
    Cursor,
    Result<SpecToken, LexerError>,
)
    decreases cur.remaining(),
{
    if !cur.wf() {
        (cur, Err(LexerError::UnexpectedCharacter(open)))
    } else {
        let (n, b) = cur.spec_next();
        match b {
            None => (
                n,
                Err(
                    LexerError::UnterminatedString(
                        open,
                        FancyChar {
                            v: '"',
                            pos: PositionInfo {
                                line: last.line,
                                index: (last.index + 1) as usize,
                            },
                        },
                    ),
                ),
            ),
            Some(b) => {
                proof {
                    cur.lemma_next();
                    n.lemma_next();
                }
                if b.v == '\\' {
                    let (n2, e) = n.spec_next();
                    match e {
                        Some(e) => {
                            if e.v == '\\' || e.v == 'n' {
                                let ch = if e.v == '\\' {
                                    '\\'
                                } else {
                                    '\n'
                                };
                                let lit2 = lit.push(ch);
                                let lit3 = if n2.spec_is_next_newline() {
                                    lit2.push('\n')
                                } else {
                                    lit2
                                };
                                string_rest(n2, open, lit3, b.pos)
                            } else {
                                (n2, Err(LexerError::UnknownCharacterEscape(b, e)))
                            }
                        },
                        None => (n2, Err(LexerError::UnexpectedCharacter(b))),
                    }
                } else if b.v == '"' {
                    (n, Ok(tok(TokenType::String, lit, open.pos, b.pos)))
                } else {
                    let lit2 = lit.push(b.v);
                    let lit3 = if n.spec_is_next_newline() {
                        lit2.push('\n')
                    } else {
                        lit2
                    };
                    string_rest(n, open, lit3, b.pos)
                }
            },
        }
    }
}

/// A token of one or two characters: `c`, and `second` with its kind when the
/// next character on the line is `=`.
pub open spec fn maybe_pair(
    c: FancyChar,
    cur: Cursor,
    tt: TokenType,
    lit: Seq<char>,
    tt2: TokenType,
    lit2: Seq<char>,
) -> (Cursor, Result<SpecToken, LexerError>) {
    if !cur.spec_is_next_newline() && cur.spec_next().1.unwrap().v == '=' {
        (cur.spec_next().0, Ok(tok(tt2, lit2, c.pos, cur.spec_next().1.unwrap().pos)))
    } else {
        (cur, Ok(tok(tt, lit, c.pos, c.pos)))
    }
}

/// A token of the single character `c`.
pub open spec fn one(c: FancyChar, cur: Cursor, tt: TokenType, lit: Seq<char>) -> (
    Cursor,
    Result<SpecToken, LexerError>,
) {
    (cur, Ok(tok(tt, lit, c.pos, c.pos)))
}

/// `!=`, the only token that starts with `!`.
pub open spec fn not_equal(c: FancyChar, cur: Cursor) -> (Cursor, Result<SpecToken, LexerError>) {
    if !cur.spec_is_next_newline() && cur.spec_next().1.unwrap().v == '=' {
        (cur.spec_next().0, Ok(tok(TokenType::NotEqual, "!="@, c.pos, cur.spec_next().1.unwrap().pos)))
    } else {
        (cur, Err(LexerError::UnexpectedCharacter(c)))
    }
}

/// A word (a keyword or an identifier) or a number that starts with `c`.
pub open spec fn word_or_number(c: FancyChar, cur: Cursor) -> (Cursor, Result<SpecToken, LexerError>) {
    if spec_is_ascii_alphabetic(c.v) || c.v == '_' {
        let (c2, lit, pos) = literal_after(c, cur, true);
        (c2, Ok(word_token(lit, pos)))
    } else if char_is_numeric(c.v) {
        let (c2, lit, pos) = literal_after(c, cur, false);
        (c2, Ok(SpecToken { token_type: TokenType::Number, literal: lit, pos }))
    } else {
        (cur, Err(LexerError::UnexpectedCharacter(c)))
    }
}

/// The token that starts with the character `c`; `cur` is the cursor after it.
pub open spec fn lex_after(c: FancyChar, cur: Cursor) -> (Cursor, Result<SpecToken, LexerError>) {
    match c.v {
        '+' => one(c, cur, TokenType::Plus, "+"@),
        '-' => one(c, cur, TokenType::Minus, "-"@),
        '*' => one(c, cur, TokenType::Multiply, "*"@),
        '^' => one(c, cur, TokenType::Power, "^"@),
        '/' => one(c, cur, TokenType::Divide, "/"@),
        '=' => maybe_pair(c, cur, TokenType::Assign, "="@, TokenType::Equal, "=="@),
        '>' => maybe_pair(c, cur, TokenType::Greater, ">"@, TokenType::GreaterEqual, ">="@),
        '<' => maybe_pair(c, cur, TokenType::Lesser, "<"@, TokenType::LesserEqual, "<="@),
        '(' => one(c, cur, TokenType::LeftParen, "("@),
        ')' => one(c, cur, TokenType::RightParen, ")"@),
        '"' => string_rest(cur, c, Seq::empty(), c.pos),
        '!' => not_equal(c, cur),
        ':' => one(c, cur, TokenType::Colon, ":"@),
        '.' => one(c, cur, TokenType::Dot, "."@),
        ',' => one(c, cur, TokenType::Comma, ","@),
        '[' => one(c, cur, TokenType::LeftSquareBracket, "["@),
        ']' => one(c, cur, TokenType::RightSquareBracket, "]"@),
        _ => word_or_number(c, cur),
    }
}

impl Lexer {
    pub open spec fn wf(self) -> bool {
        self.cursor.wf()
    }

    /// A measure that each token other than `Eof`, and each error, lowers.
    pub open spec fn measure(self) -> nat {
        2 * self.cursor.remaining() + if self.line_has_token {
            1nat
        } else {
            0nat
        }
    }

    /// What `bump` does: the lexer after it and the token it returns.
    ///
    /// Blanks are skipped; at the end of a line that a line break follows, a
    /// `Newline` is returned if a token was found on it; otherwise the lexer
    /// goes on to the next line, or returns `Eof` after the last one. `//` starts a comment that runs to the
    /// end of the line.
    pub open spec fn spec_bump(self) -> (Lexer, Result<SpecToken, LexerError>)
        decreases self.cursor.remaining(),
    {
        if !self.wf() {
            (self, Err(LexerError::UnexpectedCharacter(FancyChar { v: ' ', pos: PositionInfo { line: 0, index: 0 } })))
        } else {
            let c1 = self.cursor.skip_line_blanks();
            proof {
                self.cursor.lemma_skips();
                c1.lemma_next();
            }
            if c1.spec_is_next_newline() {
                let here = PositionInfo { line: c1.line, index: c1.spec_offset() };
                if self.line_has_token && (c1.line + 1 < c1.nlines() || c1.text.ends_with_break) {
                    (
                        Lexer { cursor: c1, line_has_token: false },
                        Ok(tok(TokenType::Newline, "\n"@, here, here)),
                    )
                } else if c1.line + 1 < c1.nlines() {
                    Lexer { cursor: c1.spec_next_line(), line_has_token: false }.spec_bump()
                } else {
                    (
                        Lexer { cursor: c1, line_has_token: false },
                        Ok(tok(TokenType::Eof, "\0"@, here, here)),
                    )
                }
            } else {
                let (c2, c) = c1.spec_next();
                let c = c.unwrap();
                proof {
                    c2.lemma_next();
                    c2.lemma_skips();
                }
                if c.v == '/' && !c2.spec_is_next_newline() && c2.spec_next().1.unwrap().v == '/' {
                    Lexer {
                        cursor: c2.skip_to_line_end(),
                        line_has_token: self.line_has_token,
                    }.spec_bump()
                } else {
                    let (c3, r) = lex_after(c, c2);
                    (Lexer { cursor: c3, line_has_token: true }, r)
                }
            }
        }
    }
}

/// Reading the rest of a string keeps the cursor well formed, on the same
/// text, and never goes back.
pub proof fn lemma_string_rest(cur: Cursor, open: FancyChar, lit: Seq<char>, last: PositionInfo)
    requires
        cur.wf(),
    ensures
        cur.same_text(string_rest(cur, open, lit, last).0),
        string_rest(cur, open, lit, last).1 matches Ok(t) ==> t.token_type == TokenType::String,
    decreases cur.remaining(),
{
    cur.lemma_next();
    let (n, b) = cur.spec_next();
    if let Some(b) = b {
        n.lemma_next();
        let (n2, e) = n.spec_next();
        if b.v == '\\' {
            if let Some(e) = e {
                if e.v == '\\' || e.v == 'n' {
                    let ch = if e.v == '\\' {
                        '\\'
                    } else {
                        '\n'
                    };
                    let lit2 = lit.push(ch);
                    let lit3 = if n2.spec_is_next_newline() {
                        lit2.push('\n')
                    } else {
                        lit2
                    };
                    lemma_string_rest(n2, open, lit3, b.pos);
                }
            }
        } else if b.v != '"' {
            let lit2 = lit.push(b.v);
            let lit3 = if n.spec_is_next_newline() {
                lit2.push('\n')
            } else {
                lit2
            };
            lemma_string_rest(n, open, lit3, b.pos);
        }
    }
}

/// Reading a token keeps the cursor well formed, on the same text, and never
/// goes back.
pub proof fn lemma_lex_after(c: FancyChar, cur: Cursor)
    requires
        cur.wf(),
    ensures
        cur.same_text(lex_after(c, cur).0),
        lex_after(c, cur).1 matches Ok(t) ==> t.token_type != TokenType::Eof,
{
    cur.lemma_next();
    cur.lemma_skips();
    lemma_string_rest(cur, c, Seq::empty(), c.pos);
}

impl Lexer {
    /// `bump` keeps the lexer well formed; a token other than `Eof`, and an error,
    /// lower the measure; after `Eof` the lexer stays where it is.
    pub proof fn lemma_bump(self)
        requires
            self.wf(),
        ensures
            self.spec_bump().0.wf(),
            self.spec_bump().0.cursor.text == self.cursor.text,
            self.spec_bump().0.measure() <= self.measure(),
            self.spec_bump().1 is Err ==> self.spec_bump().0.measure() < self.measure(),
            self.spec_bump().1 matches Ok(t) && t.token_type != TokenType::Eof
                ==> self.spec_bump().0.measure() < self.measure(),
            self.spec_bump().1 matches Ok(t) && t.token_type == TokenType::Eof
                ==> self.spec_bump().0.spec_bump() == self.spec_bump(),
        decreases self.cursor.remaining(),
    {
        let c1 = self.cursor.skip_line_blanks();
        self.cursor.lemma_skips();
        c1.lemma_next();
        c1.lemma_skips();
        if c1.spec_is_next_newline() {
            if !self.line_has_token && c1.line + 1 < c1.nlines() {
                let n = Lexer { cursor: c1.spec_next_line(), line_has_token: false };
                assert(n.wf()) by {
                    assert(c1.text.starts@[c1.line + 1] <= c1.line_end(c1.line + 1));
                    assert forall|l: int| 0 <= l < n.cursor.nlines() implies n.cursor.text.starts@[l]
                        <= #[trigger] n.cursor.line_end(l) <= n.cursor.text.chars@.len() by {
                        assert(c1.line_end(l) <= c1.text.chars@.len());
                    }
                }
                n.lemma_bump();
            } else if !(c1.line + 1 < c1.nlines()) && !(self.line_has_token && c1.text.ends_with_break) {
                let e = Lexer { cursor: c1, line_has_token: false };
                assert(c1.skip_line_blanks() == c1);
                assert(e.spec_bump() == self.spec_bump());
            }
        } else {
            let (c2, c) = c1.spec_next();
            let c = c.unwrap();
            c2.lemma_next();
            c2.lemma_skips();
            if c.v == '/' && !c2.spec_is_next_newline() && c2.spec_next().1.unwrap().v == '/' {
                let n = Lexer { cursor: c2.skip_to_line_end(), line_has_token: self.line_has_token };
                n.lemma_bump();
            } else {
                lemma_lex_after(c, c2);
            }
        }
    }
}

/// The kind of a punctuation mark or operator, by its text.
pub open spec fn symbol_kind(lit: Seq<char>) -> Option<TokenType> {
    if lit.len() == 1 {
        match lit[0] {
            '+' => Some(TokenType::Plus),
            '-' => Some(TokenType::Minus),
            '*' => Some(TokenType::Multiply),
            '^' => Some(TokenType::Power),
            '/' => Some(TokenType::Divide),
            '=' => Some(TokenType::Assign),
            '>' => Some(TokenType::Greater),
            '<' => Some(TokenType::Lesser),
            '(' => Some(TokenType::LeftParen),
            ')' => Some(TokenType::RightParen),
            ':' => Some(TokenType::Colon),
            '.' => Some(TokenType::Dot),
            ',' => Some(TokenType::Comma),
            '[' => Some(TokenType::LeftSquareBracket),
            ']' => Some(TokenType::RightSquareBracket),
            _ => None,
        }
    } else if lit.len() == 2 && lit[1] == '=' {
        match lit[0] {
            '=' => Some(TokenType::Equal),
            '>' => Some(TokenType::GreaterEqual),
            '<' => Some(TokenType::LesserEqual),
            '!' => Some(TokenType::NotEqual),
            _ => None,
        }
    } else {
        None
    }
}

/// The kind of a reserved word, by its text.
pub open spec fn reserved_kind(w: Seq<char>) -> Option<TokenType> {
    if w == "MOD"@ {
        Some(TokenType::Modulo)
    } else if w == "DIV"@ {
        Some(TokenType::Quotient)
    } else if w == "AND"@ {
        Some(TokenType::And)
    } else if w == "OR"@ {
        Some(TokenType::Or)
    } else if w == "NOT"@ {
        Some(TokenType::Not)
    } else if w == "for"@ {
        Some(TokenType::For)
    } else if w == "to"@ {
        Some(TokenType::To)
    } else if w == "next"@ {
        Some(TokenType::Next)
    } else if w == "while"@ {
        Some(TokenType::While)
    } else if w == "endwhile"@ {
        Some(TokenType::EndWhile)
    } else if w == "do"@ {
        Some(TokenType::Do)
    } else if w == "until"@ {
        Some(TokenType::Until)
    } else if w == "true"@ {
        Some(TokenType::True)
    } else if w == "false"@ {
        Some(TokenType::False)
    } else if w == "switch"@ {
        Some(TokenType::Switch)
    } else if w == "case"@ {
        Some(TokenType::Case)
    } else if w == "default"@ {
        Some(TokenType::Default)
    } else if w == "endswitch"@ {
        Some(TokenType::EndSwitch)
    } else if w == "if"@ {
        Some(TokenType::If)
    } else if w == "else"@ {
        Some(TokenType::Else)
    } else if w == "then"@ {
        Some(TokenType::Then)
    } else if w == "elseif"@ {
        Some(TokenType::ElseIf)
    } else if w == "endif"@ {
        Some(TokenType::EndIf)
    } else if w == "global"@ {
        Some(TokenType::Global)
    } else if w == "return"@ {
        Some(TokenType::Return)
    } else if w == "procedure"@ {
        Some(TokenType::Procedure)
    } else if w == "endprocedure"@ {
        Some(TokenType::EndProcedure)
    } else {
        None
    }
}

/// The kind of token that the text `lit` makes: a punctuation mark or an
/// operator by its own table, a word (it starts with an ASCII letter or `_`)
/// a reserved word or else an identifier, and anything else a number.
pub open spec fn literal_kind(lit: Seq<char>) -> TokenType {
    match symbol_kind(lit) {
        Some(k) => k,
        None => if lit.len() > 0 && (spec_is_ascii_alphabetic(lit[0]) || lit[0] == '_') {
            match reserved_kind(lit) {
                Some(k) => k,
                None => TokenType::Identifier,
            }
        } else {
            TokenType::Number
        },
    }
}

/// Whether the outcome `r` of reading a token, when it is a token other than
/// a string, `Newline` or `Eof`, has the kind that its literal makes.
pub open spec fn kind_fits_literal(r: Result<SpecToken, LexerError>) -> bool {
    match r {
        Ok(t) => t.token_type != TokenType::String && t.token_type != TokenType::Newline
            && t.token_type != TokenType::Eof ==> t.token_type == literal_kind(t.literal),
        Err(_) => true,
    }
}

/// The characters of `line` from `j1` through `j2` are the literal of `t`,
/// the first starting at the byte index of `t`'s start and the last at that
/// of its end.
pub open spec fn slice_at(line: Seq<char>, t: SpecToken, j1: int, j2: int) -> bool {
    &&& 0 <= j1 <= j2 < line.len()
    &&& utf8_width(line.take(j1)) == t.pos.from.index
    &&& utf8_width(line.take(j2)) == t.pos.to.index
    &&& t.literal == line.subrange(j1, j2 + 1)
}

/// The literal of `t` is the text of the source `s` between its positions:
/// on the one line of both, from the character that starts at the byte
/// index of its start through the one that starts at the byte index of its
/// end.
pub open spec fn is_source_slice(s: Seq<char>, t: SpecToken) -> bool {
    &&& t.pos.from.line == t.pos.to.line
    &&& t.pos.from.line < source_lines(s).len()
    &&& exists|j1: int, j2: int| #[trigger] slice_at(source_lines(s)[t.pos.from.line as int], t, j1, j2)
}

/// Whether the outcome `r` of reading a token of the source `s`, when it is
/// a token other than a string, `Newline` or `Eof`, is the text between its
/// positions.
pub open spec fn literal_from_source(s: Seq<char>, r: Result<SpecToken, LexerError>) -> bool {
    match r {
        Ok(t) => t.token_type != TokenType::String && t.token_type != TokenType::Newline
            && t.token_type != TokenType::Eof ==> is_source_slice(s, t),
        Err(_) => true,
    }
}

/// Characters `a` through `b` of one line of a text that describes `s`, with
/// the positions and text of `t`, make `t` the text of `s` between its
/// positions.
proof fn lemma_slice_of_range(c: Cursor, s: Seq<char>, t: SpecToken, l: int, a: int, b: int)
    requires
        c.wf(),
        describes(c, s),
        0 <= l < c.nlines(),
        c.text.starts@[l] <= a <= b < c.line_end(l),
        c.text.chars@[a].pos == t.pos.from,
        c.text.chars@[b].pos == t.pos.to,
        t.literal == c.text.chars@.subrange(a, b + 1).map_values(|f: FancyChar| f.v),
    ensures
        is_source_slice(s, t),
{
    let lines = source_lines(s);
    let chars = c.text.chars@;
    let st = c.text.starts@[l] as int;
    let line = lines[l];
    assert(c.line_text(l) == line);
    assert(c.line_end(l) <= chars.len());
    assert(c.line_text(l).len() == c.line_end(l) - st);
    let j1 = a - st;
    let j2 = b - st;
    assert(c.text.widths@[l] == utf8_width(line));
    lemma_utf8_width_prefix(line, j1);
    lemma_utf8_width_prefix(line, j2);
    assert(chars[st + j1].pos == PositionInfo { line: l as usize, index: utf8_width(line.take(j1)) as usize });
    assert(chars[st + j2].pos == PositionInfo { line: l as usize, index: utf8_width(line.take(j2)) as usize });
    let lit = chars.subrange(a, b + 1).map_values(|f: FancyChar| f.v);
    let part = line.subrange(j1, j2 + 1);
    assert forall|i: int| 0 <= i < b + 1 - a implies #[trigger] lit[i] == part[i] by {
        assert(c.line_text(l)[j1 + i] == chars[a + i].v);
    }
    assert(lit =~= part);
    assert(slice_at(lines[t.pos.from.line as int], t, j1, j2));
}

/// A word's keyword token keeps the word as its literal.
proof fn lemma_keyword_literal(lit: Seq<char>)
    ensures
        keyword(lit) matches Some((tt, l)) ==> l == lit,
{
}

/// The token that a character starts, unless it is a string, spans that
/// character and the ones after it that it takes, on its line.
proof fn lemma_lex_after_spans(s: Seq<char>, c1: Cursor)
    requires
        c1.wf(),
        describes(c1, s),
        !c1.spec_is_next_newline(),
    ensures
        literal_from_source(s, lex_after(c1.spec_next().1.unwrap(), c1.spec_next().0).1),
        kind_fits_literal(lex_after(c1.spec_next().1.unwrap(), c1.spec_next().0).1),
{
    reveal_strlit("+");
    reveal_strlit("-");
    reveal_strlit("*");
    reveal_strlit("^");
    reveal_strlit("/");
    reveal_strlit("=");
    reveal_strlit("==");
    reveal_strlit(">");
    reveal_strlit(">=");
    reveal_strlit("<");
    reveal_strlit("<=");
    reveal_strlit("(");
    reveal_strlit(")");
    reveal_strlit("!=");
    reveal_strlit(":");
    reveal_strlit(".");
    reveal_strlit(",");
    reveal_strlit("[");
    reveal_strlit("]");
    c1.lemma_next();
    c1.lemma_next_char();
    let p = c1.pos as int;
    let line = c1.line as int;
    let chars = c1.text.chars@;
    let (c2, oc) = c1.spec_next();
    let c = oc.unwrap();
    assert(p < c1.line_end(line));
    assert(c == chars[p]);
    assert(c2.line == c1.line && c2.pos == p + 1);
    lemma_char_on_line(c1, s, line, p);
    c2.lemma_next();
    c2.lemma_next_char();
    lemma_string_rest(c2, c, Seq::empty(), c.pos);
    lemma_keyword_literal(seq![c.v] + c2.collect_line(true).1.map_values(|f: FancyChar| f.v));
    if let Ok(t) = lex_after(c, c2).1 {
        if t.token_type != TokenType::String {
            if (c.v == '=' || c.v == '>' || c.v == '<' || c.v == '!') && !c2.spec_is_next_newline()
                && c2.spec_next().1.unwrap().v == '=' {
                assert(c2.line_end(line) == c1.line_end(line));
                lemma_char_on_line(c1, s, line, p + 1);
                assert(chars.subrange(p, p + 2).map_values(|f: FancyChar| f.v) =~= seq![c.v, '=']);
                assert(t.literal =~= seq![c.v, '=']);
                lemma_slice_of_range(c1, s, t, line, p, p + 1);
            } else if c.v == '+' || c.v == '-' || c.v == '*' || c.v == '^' || c.v == '/' || c.v == '='
                || c.v == '>' || c.v == '<' || c.v == '(' || c.v == ')' || c.v == ':' || c.v == '.'
                || c.v == ',' || c.v == '[' || c.v == ']' {
                assert(chars.subrange(p, p + 1).map_values(|f: FancyChar| f.v) =~= seq![c.v]);
                assert(t.literal =~= seq![c.v]);
                lemma_slice_of_range(c1, s, t, line, p, p);
            } else {
                let ident = spec_is_ascii_alphabetic(c.v) || c.v == '_';
                c2.lemma_collect_line(ident);
                let taken = c2.collect_line(ident).1;
                let k = taken.len() as int;
                assert(c2.line_end(line) == c1.line_end(line));
                assert forall|q: int| p <= q <= p + k implies (#[trigger] chars[q]).pos.line == line by {
                    lemma_char_on_line(c1, s, line, q);
                }
                assert(seq![c.v] + taken.map_values(|f: FancyChar| f.v) =~= chars.subrange(p, p + k + 1).map_values(
                    |f: FancyChar| f.v,
                ));
                if k > 0 {
                    assert(taken.last() == chars[p + k]);
                }
                lemma_slice_of_range(c1, s, t, line, p, p + k);
            }
        }
    }
}

impl Lexer {
    /// A token other than a string, `Newline` or `Eof` is the text between its
    /// positions: its literal is spelled by consecutive characters of one line
    /// of the text, the first at its start and the last at its end; and its
    /// kind is the one its literal makes (`literal_kind`): `<=` is always
    /// `LesserEqual`, `to` always `To`, a word no table holds an identifier. The lexer
    /// after the step still reads the same source, so this holds of every
    /// token that a lexer made by `Lexer::from` hands out.
    pub proof fn lemma_token_literal(self, s: Seq<char>)
        requires
            self.wf(),
            describes(self.cursor, s),
        ensures
            literal_from_source(s, self.spec_bump().1),
            kind_fits_literal(self.spec_bump().1),
            describes(self.spec_bump().0.cursor, s),
        decreases self.cursor.remaining(),
    {
        self.lemma_bump();
        crate::cursor::lemma_describes_same_text(self.cursor, self.spec_bump().0.cursor, s);
        let c1 = self.cursor.skip_line_blanks();
        self.cursor.lemma_skips();
        c1.lemma_next();
        c1.lemma_skips();
        if c1.spec_is_next_newline() {
            if !self.line_has_token && c1.line + 1 < c1.nlines() {
                let n = Lexer { cursor: c1.spec_next_line(), line_has_token: false };
                assert(n.wf()) by {
                    assert(c1.text.starts@[c1.line + 1] <= c1.line_end(c1.line + 1));
                    assert forall|l: int| 0 <= l < n.cursor.nlines() implies n.cursor.text.starts@[l]
                        <= #[trigger] n.cursor.line_end(l) <= n.cursor.text.chars@.len() by {
                        assert(c1.line_end(l) <= c1.text.chars@.len());
                    }
                }
                crate::cursor::lemma_describes_same_text(self.cursor, n.cursor, s);
                n.lemma_token_literal(s);
            }
        } else {
            let (c2, c) = c1.spec_next();
            let c = c.unwrap();
            c2.lemma_next();
            c2.lemma_skips();
            if c.v == '/' && !c2.spec_is_next_newline() && c2.spec_next().1.unwrap().v == '/' {
                let n = Lexer { cursor: c2.skip_to_line_end(), line_has_token: self.line_has_token };
                crate::cursor::lemma_describes_same_text(self.cursor, n.cursor, s);
                n.lemma_token_literal(s);
            } else {
                crate::cursor::lemma_describes_same_text(self.cursor, c1, s);
                lemma_lex_after_spans(s, c1);
            }
        }
    }
}

/// The keyword that `lit` spells, if any: its kind and its token's text.
fn keyword_token(lit: &Vec<char>) -> (r: Option<(TokenType, String)>)
    ensures
        match r {
            Some((t, text)) => keyword(lit@) == Some((t, text@)),
            None => keyword(lit@) is None,
        },
{
    if chars_eq_str(lit, "MOD") {
        return Some((TokenType::Modulo, string_from_str("MOD")));
    }
    if chars_eq_str(lit, "DIV") {
        return Some((TokenType::Quotient, string_from_str("DIV")));
    }
    if chars_eq_str(lit, "AND") {
        return Some((TokenType::And, string_from_str("AND")));
    }
    if chars_eq_str(lit, "OR") {
        return Some((TokenType::Or, string_from_str("OR")));
    }
    if chars_eq_str(lit, "NOT") {
        return Some((TokenType::Not, string_from_str("NOT")));
    }
    if chars_eq_str(lit, "for") {
        return Some((TokenType::For, string_from_str("for")));
    }
    if chars_eq_str(lit, "to") {
        return Some((TokenType::To, string_from_str("to")));
    }
    if chars_eq_str(lit, "next") {
        return Some((TokenType::Next, string_from_str("next")));
    }
    if chars_eq_str(lit, "while") {
        return Some((TokenType::While, string_from_str("while")));
    }
    if chars_eq_str(lit, "endwhile") {
        return Some((TokenType::EndWhile, string_from_str("endwhile")));
    }
    if chars_eq_str(lit, "do") {
        return Some((TokenType::Do, string_from_str("do")));
    }
    if chars_eq_str(lit, "until") {
        return Some((TokenType::Until, string_from_str("until")));
    }
    if chars_eq_str(lit, "true") {
        return Some((TokenType::True, string_from_str("true")));
    }
    if chars_eq_str(lit, "false") {
        return Some((TokenType::False, string_from_str("false")));
    }
    if chars_eq_str(lit, "switch") {
        return Some((TokenType::Switch, string_from_str("switch")));
    }
    if chars_eq_str(lit, "case") {
        return Some((TokenType::Case, string_from_str("case")));
    }
    if chars_eq_str(lit, "default") {
        return Some((TokenType::Default, string_from_str("default")));
    }
    if chars_eq_str(lit, "endswitch") {
        return Some((TokenType::EndSwitch, string_from_str("endswitch")));
    }
    if chars_eq_str(lit, "if") {
        return Some((TokenType::If, string_from_str("if")));
    }
    if chars_eq_str(lit, "else") {
        return Some((TokenType::Else, string_from_str("else")));
    }
    if chars_eq_str(lit, "then") {
        return Some((TokenType::Then, string_from_str("then")));
    }
    if chars_eq_str(lit, "elseif") {
        return Some((TokenType::ElseIf, string_from_str("elseif")));
    }
    if chars_eq_str(lit, "endif") {
        return Some((TokenType::EndIf, string_from_str("endif")));
    }
    if chars_eq_str(lit, "global") {
        return Some((TokenType::Global, string_from_str("global")));
    }
    if chars_eq_str(lit, "return") {
        return Some((TokenType::Return, string_from_str("return")));
    }
    if chars_eq_str(lit, "procedure") {
        return Some((TokenType::Procedure, string_from_str("procedure")));
    }
    if chars_eq_str(lit, "endprocedure") {
        return Some((TokenType::EndProcedure, string_from_str("endprocedure")));
    }
    None
}

/// The next character if it is on the current line.
fn same_line_peek(cur: &Cursor) -> (r: Option<FancyChar>)
    requires
        cur.wf(),
    ensures
        r == (if !cur.spec_is_next_newline() {
            cur.spec_next().1
        } else {
            None
        }),
        r is Some ==> cur.spec_next().1 == r,
{
    if cur.is_next_newline() {
        None
    } else {
        cur.peek()
    }
}

fn single(tt: TokenType, lit: &str, c: FancyChar) -> (r: Token)
    ensures
        r@ == tok(tt, lit@, c.pos, c.pos),
{
    Token { token_type: tt, literal: string_from_str(lit), pos: c.pos.to_single_letter_token_position() }
}

impl Lexer {
    /// A lexer at the start of `src`.
    pub fn from(src: &str) -> (r: Lexer)
        ensures
            r.wf(),
            r.cursor.line == 0,
            r.cursor.pos == 0,
            !r.line_has_token,
            crate::cursor::describes(r.cursor, src@),
    {
        Lexer { cursor: Cursor::from(src), line_has_token: false }
    }

    /// Reads a word or a number that starts with `c`: its text and its span.
    fn collect_literal(&mut self, c: FancyChar, ident: bool) -> (r: (String, TokenPosition))
        requires
            old(self).wf(),
        ensures
            final(self).wf(),
            final(self).line_has_token == old(self).line_has_token,
            (final(self).cursor, r.0@, r.1) == literal_after(c, old(self).cursor, ident),
    {
        let mut literal = String::new();
        push_char(&mut literal, c.v);
        let collected = self.cursor.collect_line_while(&mut literal, ident);
        let pos = match collected {
            Some(p) => TokenPosition { from: c.pos, to: p },
            None => c.pos.to_single_letter_token_position(),
        };
        proof {
            let taken = old(self).cursor.collect_line(ident).1;
            assert(seq![c.v] + taken.map_values(|f: FancyChar| f.v) =~= Seq::<char>::empty().push(
                c.v,
            ) + taken.map_values(|f: FancyChar| f.v));
        }
        (literal, pos)
    }

    /// Reads the rest of a string literal whose opening quote is `open`.
    fn lex_string(&mut self, open: FancyChar) -> (r: Result<Token, LexerError>)
        requires
            old(self).wf(),
            open.pos.line < usize::MAX,
            open.pos.index < usize::MAX,
        ensures
            final(self).wf(),
            final(self).line_has_token == old(self).line_has_token,
            (final(self).cursor, result_view(r)) == string_rest(
                old(self).cursor,
                open,
                Seq::empty(),
                open.pos,
            ),
    {
        let mut literal = String::new();
        let mut last_pos = open.pos;
        loop
            invariant
                self.wf(),
                self.line_has_token == old(self).line_has_token,
                last_pos.line < usize::MAX,
                last_pos.index < usize::MAX,
                string_rest(self.cursor, open, literal@, last_pos) == string_rest(
                    old(self).cursor,
                    open,
                    Seq::empty(),
                    open.pos,
                ),
            decreases self.cursor.remaining(),
        {
            proof {
                self.cursor.lemma_next();
            }
            let bump = match self.cursor.bump() {
                Some(b) => b,
                None => {
                    return Err(
                        LexerError::UnterminatedString(
                            open,
                            FancyChar {
                                v: '"',
                                pos: PositionInfo {
                                    line: last_pos.line,
                                    index: last_pos.index + 1,
                                },
                            },
                        ),
                    );
                },
            };
            proof {
                self.cursor.lemma_next();
            }
            if bump.v == '\\' {
                match self.cursor.bump() {
                    Some(escape_character) => {
                        if escape_character.v == '\\' {
                            push_char(&mut literal, '\\');
                        } else if escape_character.v == 'n' {
                            push_char(&mut literal, '\n');
                        } else {
                            return Err(LexerError::UnknownCharacterEscape(bump, escape_character));
                        }
                    },
                    None => {
                        return Err(LexerError::UnexpectedCharacter(bump));
                    },
                }
            } else if bump.v == '"' {
                return Ok(
                    Token {
                        token_type: TokenType::String,
                        literal,
                        pos: TokenPosition::from_to(&open, &bump),
                    },
                );
            } else {
                push_char(&mut literal, bump.v);
            }
            last_pos = bump.pos;
            if self.cursor.is_next_newline() {
                push_char(&mut literal, '\n');
            }
        }
    }

    /// Reads a token of one or two characters: `c`, or `c` and `=`.
    fn lex_pair(
        &mut self,
        c: FancyChar,
        tt: TokenType,
        lit: &str,
        tt2: TokenType,
        lit2: &str,
    ) -> (r: Token)
        requires
            old(self).wf(),
        ensures
            final(self).wf(),
            final(self).line_has_token == old(self).line_has_token,
            (final(self).cursor, Ok::<SpecToken, LexerError>(r@)) == maybe_pair(
                c,
                old(self).cursor,
                tt,
                lit@,
                tt2,
                lit2@,
            ),
    {
        proof {
            self.cursor.lemma_next();
        }
        match same_line_peek(&self.cursor) {
            Some(peek) => {
                if peek.v == '=' {
                    self.cursor.bump();
                    return Token {
                        token_type: tt2,
                        literal: string_from_str(lit2),
                        pos: TokenPosition::from_to(&c, &peek),
                    };
                }
            },
            None => {},
        }
        single(tt, lit, c)
    }

    /// Reads `!=`, the only token that starts with `!`.
    fn lex_not_equal(&mut self, c: FancyChar) -> (r: Result<Token, LexerError>)
        requires
            old(self).wf(),
        ensures
            final(self).wf(),
            final(self).line_has_token == old(self).line_has_token,
            (final(self).cursor, result_view(r)) == not_equal(c, old(self).cursor),
    {
        proof {
            self.cursor.lemma_next();
        }
        match same_line_peek(&self.cursor) {
            Some(peek) => {
                if peek.v == '=' {
                    self.cursor.bump();
                    return Ok(
                        Token {
                            token_type: TokenType::NotEqual,
                            literal: string_from_str("!="),
                            pos: TokenPosition::from_to(&c, &peek),
                        },
                    );
                }
            },
            None => {},
        }
        Err(LexerError::UnexpectedCharacter(c))
    }

    /// Reads a word or a number that starts with `c`.
    fn lex_word(&mut self, c: FancyChar) -> (r: Result<Token, LexerError>)
        requires
            old(self).wf(),
        ensures
            final(self).wf(),
            final(self).line_has_token == old(self).line_has_token,
            (final(self).cursor, result_view(r)) == word_or_number(c, old(self).cursor),
    {
        if is_ascii_alphabetic(c.v) || c.v == '_' {
            // An identifier: letters, digits and `_`, starting with a letter or `_`.
            let (literal, pos) = self.collect_literal(c, true);
            let cs = crate::text::chars_of(literal.as_str());
            match keyword_token(&cs) {
                Some((tt, text)) => Ok(Token { token_type: tt, literal: text, pos }),
                None => Ok(Token { token_type: TokenType::Identifier, literal, pos }),
            }
        } else if is_numeric(c.v) {
            let (literal, pos) = self.collect_literal(c, false);
            Ok(Token { token_type: TokenType::Number, literal, pos })
        } else {
            Err(LexerError::UnexpectedCharacter(c))
        }
    }

    /// Reads the token that starts with the character `c`, already taken.
    fn lex_token(&mut self, c: FancyChar) -> (r: Result<Token, LexerError>)
        requires
            old(self).wf(),
            c.pos.line < usize::MAX,
            c.pos.index < usize::MAX,
        ensures
            final(self).wf(),
            final(self).line_has_token == old(self).line_has_token,
            (final(self).cursor, result_view(r)) == lex_after(c, old(self).cursor),
    {
        match c.v {
            '+' => Ok(single(TokenType::Plus, "+", c)),
            '-' => Ok(single(TokenType::Minus, "-", c)),
            '*' => Ok(single(TokenType::Multiply, "*", c)),
            '^' => Ok(single(TokenType::Power, "^", c)),
            '/' => Ok(single(TokenType::Divide, "/", c)),
            '=' => Ok(self.lex_pair(c, TokenType::Assign, "=", TokenType::Equal, "==")),
            '>' => Ok(self.lex_pair(c, TokenType::Greater, ">", TokenType::GreaterEqual, ">=")),
            '<' => Ok(self.lex_pair(c, TokenType::Lesser, "<", TokenType::LesserEqual, "<=")),
            '(' => Ok(single(TokenType::LeftParen, "(", c)),
            ')' => Ok(single(TokenType::RightParen, ")", c)),
            '"' => self.lex_string(c),
            '!' => self.lex_not_equal(c),
            ':' => Ok(single(TokenType::Colon, ":", c)),
            '.' => Ok(single(TokenType::Dot, ".", c)),
            ',' => Ok(single(TokenType::Comma, ",", c)),
            '[' => Ok(single(TokenType::LeftSquareBracket, "[", c)),
            ']' => Ok(single(TokenType::RightSquareBracket, "]", c)),
            _ => self.lex_word(c),
        }
    }

    /// Advances and returns the next token.
    pub fn bump(&mut self) -> (r: Result<Token, LexerError>)
        requires
            old(self).wf(),
        ensures
            final(self).wf(),
            (*final(self), result_view(r)) == old(self).spec_bump(),
        decreases old(self).cursor.remaining(),
    {
        proof {
            self.lemma_bump();
            self.cursor.lemma_skips();
        }
        self.cursor.eat_line_whitespace();
        proof {
            self.cursor.lemma_next();
            self.cursor.lemma_skips();
        }
        if self.cursor.is_next_newline() {
            let here = PositionInfo { line: self.cursor.lines_number(), index: self.cursor.offset() };
            let more_lines = self.cursor.lines_number() < self.cursor.text.starts.len() - 1;
            if self.line_has_token && (more_lines || self.cursor.text.ends_with_break) {
                self.line_has_token = false;
                return Ok(
                    Token {
                        token_type: TokenType::Newline,
                        literal: string_from_str("\n"),
                        pos: here.to_single_letter_token_position(),
                    },
                );
            }
            if more_lines {
                self.cursor.next_line();
                return self.bump();
            }
            self.line_has_token = false;
            return Ok(
                Token {
                    token_type: TokenType::Eof,
                    literal: string_from_str("\0"),
                    pos: here.to_single_letter_token_position(),
                },
            );
        }
        let c = match self.cursor.bump() {
            Some(c) => c,
            None => {
                return Ok(
                    Token {
                        token_type: TokenType::Eof,
                        literal: string_from_str("\0"),
                        pos: PositionInfo { line: 0, index: 0 }.to_single_letter_token_position(),
                    },
                );
            },
        };
        proof {
            self.cursor.lemma_next();
            self.cursor.lemma_skips();
        }
        if c.v == '/' {
            if let Some(peek) = same_line_peek(&self.cursor) {
                if peek.v == '/' {
                    // A comment: skip everything up to the end of the line.
                    self.cursor.eat_line();
                    return self.bump();
                }
            }
        }
        let r = self.lex_token(c);
        self.line_has_token = true;
        r
    }

    /// The next token, without advancing.
    pub fn peek(&self) -> (r: Result<Token, LexerError>)
        requires
            self.wf(),
        ensures
            result_view(r) == self.spec_bump().1,
    {
        let mut lexer = self.clone();
        lexer.bump()
    }

    /// Whether the next token is `Eof`.
    pub fn is_eof(&self) -> (r: Result<bool, LexerError>)
        requires
            self.wf(),
        ensures
            match r {
                Ok(b) => self.spec_bump().1 matches Ok(t) && b == (t.token_type == TokenType::Eof),
                Err(e) => self.spec_bump().1 == Err::<SpecToken, LexerError>(e),
            },
    {
        Ok(self.peek()?.token_type == TokenType::Eof)
    }
}

impl Clone for Lexer {
    /// A lexer at the same place of the same text.
    fn clone(&self) -> (r: Self)
        ensures
            r == *self,
    {
        Lexer { cursor: self.cursor.clone(), line_has_token: self.line_has_token }
    }
}

} // verus!
