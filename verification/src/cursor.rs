//! A cursor over the characters of a source text that knows the line and the
//! byte index of each character.
use vstd::prelude::*;
use vstd::utf8::*;
use vstd::string::StringSliceAdditionalSpecFns;
use std::rc::Rc;
use crate::position::{PositionInfo, TokenPosition};
use crate::text::{
    char_is_numeric, is_ascii_alphanumeric, is_numeric, spec_is_ascii_alphabetic,
    spec_is_ascii_digit, char_width, chars_of, lemma_segments_last_width, lemma_segments_len, lemma_utf8_width_prefix,
    lemma_utf8_width_push, push_char, segments, source_lines, strip_cr, utf8_width,
};

verus! {

/// A character together with its position in the source.
#[derive(Debug, Clone, Copy, PartialEq, Eq, Structural)]
pub struct FancyChar {
    pub v: char,
    pub pos: PositionInfo,
}

impl FancyChar {
    /// The character itself.
    pub fn into_char(self) -> (r: char)
        ensures
            r == self.v,
    {
        self.v
    }
}

/// The text of line `l`: the characters from `starts[l]` up to the start of the
/// next line (or the end).
pub open spec fn line_end_of(chars: Seq<FancyChar>, starts: Seq<usize>, l: int) -> int {
    if l + 1 < starts.len() {
        starts[l + 1] as int
    } else {
        chars.len() as int
    }
}

pub open spec fn line_text_of(chars: Seq<FancyChar>, starts: Seq<usize>, l: int) -> Seq<char> {
    chars.subrange(starts[l] as int, line_end_of(chars, starts, l)).map_values(|f: FancyChar| f.v)
}

/// A source text, split into lines.
///
/// The characters of all lines are kept in one vector, without the line
/// breaks; `starts` gives where each line begins, `widths` the byte width of
/// each line.
#[derive(Debug)]
pub struct SourceText {
    pub chars: Vec<FancyChar>,
    pub starts: Vec<usize>,
    pub widths: Vec<usize>,
    /// Whether the text ends with a line break.
    pub ends_with_break: bool,
}

/// See `SourceText` for the text; `line` is the current line and `pos` the
/// index in `text.chars` of the next character.
#[derive(Debug)]
pub struct Cursor {
    pub text: Rc<SourceText>,
    pub line: usize,
    pub pos: usize,
}

impl Cursor {
    pub open spec fn nlines(self) -> int {
        self.text.starts@.len() as int
    }

    pub open spec fn line_end(self, l: int) -> int {
        line_end_of(self.text.chars@, self.text.starts@, l)
    }

    /// The characters of line `l`.
    pub open spec fn line_text(self, l: int) -> Seq<char> {
        line_text_of(self.text.chars@, self.text.starts@, l)
    }

    pub open spec fn wf(self) -> bool {
        &&& self.nlines() >= 1
        &&& self.nlines() <= usize::MAX
        &&& self.text.chars@.len() <= usize::MAX
        &&& self.text.widths@.len() == self.nlines()
        &&& self.text.starts@[0] == 0
        &&& forall|l: int|
            0 <= l < self.nlines() ==> self.text.starts@[l] <= #[trigger] self.line_end(l)
                <= self.text.chars@.len()
        &&& self.line < self.nlines()
        &&& self.text.starts@[self.line as int] <= self.pos <= self.line_end(self.line as int)
        &&& forall|k: int|
            0 <= k < self.text.chars@.len() ==> (#[trigger] self.text.chars@[k]).pos.line < usize::MAX
                && self.text.chars@[k].pos.index < usize::MAX
    }

    /// Whether the current line has no character left.
    pub open spec fn spec_is_next_newline(self) -> bool {
        self.pos >= self.line_end(self.line as int)
    }

    /// What `bump` does: the cursor after it and the character it returns.
    pub open spec fn spec_next(self) -> (Cursor, Option<FancyChar>)
        decreases self.nlines() - self.line,
    {
        if self.pos < self.line_end(self.line as int) {
            (
                Cursor {
                    text: self.text,
                    line: self.line,
                    pos: (self.pos + 1) as usize,
                },
                Some(self.text.chars@[self.pos as int]),
            )
        } else if self.line + 1 < self.nlines() && self.line < usize::MAX {
            Cursor {
                text: self.text,
                line: (self.line + 1) as usize,
                pos: self.pos,
            }.spec_next()
        } else {
            (self, None)
        }
    }

    /// A measure that every character taken lowers.
    pub open spec fn remaining(self) -> nat {
        ((self.text.chars@.len() - self.pos) + (self.nlines() - self.line)) as nat
    }

    /// The cursor after `k` calls of `bump`.
    pub open spec fn advanced(self, k: nat) -> Cursor
        decreases k,
    {
        if k == 0 {
            self
        } else {
            self.advanced((k - 1) as nat).spec_next().0
        }
    }

    /// The characters that `k` calls of `bump` return.
    pub open spec fn taken(self, k: nat) -> Seq<FancyChar>
        decreases k,
    {
        if k == 0 {
            Seq::empty()
        } else {
            self.taken((k - 1) as nat).push(self.advanced((k - 1) as nat).spec_next().1.unwrap())
        }
    }

    pub proof fn lemma_taken_len(self, k: nat)
        ensures
            self.taken(k).len() == k,
        decreases k,
    {
        if k > 0 {
            self.lemma_taken_len((k - 1) as nat);
        }
    }

    /// The position that `offset` reports.
    pub open spec fn spec_offset(self) -> usize {
        if self.pos < self.line_end(self.line as int) {
            self.text.chars@[self.pos as int].pos.index
        } else {
            self.text.widths@[self.line as int]
        }
    }

    /// `bump` keeps the cursor well formed; it lowers the measure when it returns a
    /// character and changes nothing of what is left when it returns `None`.
    pub proof fn lemma_next(self)
        requires
            self.wf(),
        ensures
            self.spec_next().0.wf(),
            self.spec_next().0.text == self.text,
            self.spec_next().1 is Some ==> self.spec_next().0.remaining() < self.remaining(),
            self.spec_next().1 is Some ==> self.spec_next().0.pos == self.pos + 1,
            self.spec_next().1 is None ==> self.spec_next().0.spec_is_next_newline()
                && self.spec_next().0.remaining() <= self.remaining()
                && self.spec_next().0.spec_next() == self.spec_next()
                && self.spec_next().0.pos == self.pos,
            self.spec_next().1 is None ==> self.spec_is_next_newline(),
            self.spec_next().1 matches Some(f) ==> f.pos.line < usize::MAX && f.pos.index
                < usize::MAX,
            !self.spec_is_next_newline() ==> self.spec_next().1 is Some,
        decreases self.nlines() - self.line,
    {
        if self.pos < self.line_end(self.line as int) {
            assert(self.line_end(self.line as int) <= self.text.chars@.len());
            assert(self.text.chars@[self.pos as int].pos.line < usize::MAX);
            let n = self.spec_next().0;
            assert forall|l: int| 0 <= l < n.nlines() implies n.text.starts@[l] <= #[trigger] n.line_end(
                l,
            ) <= n.text.chars@.len() by {
                assert(self.line_end(l) <= self.text.chars@.len());
            }
        } else if self.line + 1 < self.nlines() {
            let n = Cursor {
                text: self.text,
                line: (self.line + 1) as usize,
                pos: self.pos,
            };
            assert forall|l: int| 0 <= l < n.nlines() implies n.text.starts@[l] <= #[trigger] n.line_end(
                l,
            ) <= n.text.chars@.len() by {
                assert(self.line_end(l) <= self.text.chars@.len());
            }
            assert(n.line_end(self.line as int) == self.line_end(self.line as int));
            assert(self.text.starts@[self.line + 1] <= self.line_end(self.line + 1));
            n.lemma_next();
        }
    }

    /// Well-formedness and the source survive any number of calls of `bump`.
    pub proof fn lemma_advanced(self, k: nat)
        requires
            self.wf(),
        ensures
            self.advanced(k).wf(),
            self.advanced(k).text == self.text,
            self.advanced(k).remaining() <= self.remaining(),
        decreases k,
    {
        if k > 0 {
            self.lemma_advanced((k - 1) as nat);
            self.advanced((k - 1) as nat).lemma_next();
        }
    }

    /// Whether the predicate held at each of the first `k` steps and failed at
    /// step `k`.
    pub open spec fn while_holds<F: Fn(&Cursor, Option<FancyChar>) -> bool>(
        self,
        predicate: F,
        k: nat,
    ) -> bool {
        &&& forall|i: nat|
            i < k ==> #[trigger] predicate.ensures(
                (&self.advanced(i), self.advanced(i).spec_next().1),
                true,
            )
        &&& predicate.ensures((&self.advanced(k), self.advanced(k).spec_next().1), false)
    }

    /// The predicates that `eat_while` and `collect_while` take: callable on any
    /// well-formed cursor, and false once the text is exhausted.
    pub open spec fn stops_at_end<F: Fn(&Cursor, Option<FancyChar>) -> bool>(predicate: F) -> bool {
        &&& forall|c: Cursor, a: Option<FancyChar>| c.wf() ==> #[trigger] predicate.requires((&c, a))
        &&& forall|c: Cursor, r: bool|
            c.wf() && c.spec_next().1 is None && #[trigger] predicate.ensures(
                (&c, None::<FancyChar>),
                r,
            ) ==> !r
    }

    /// Computes what `bump` does without changing the cursor: the new line, the
    /// new index and the character.
    fn next_state(&self) -> (r: (usize, usize, Option<FancyChar>))
        requires
            self.wf(),
        ensures
            self.spec_next().0.line == r.0,
            self.spec_next().0.pos == r.1,
            self.spec_next().1 == r.2,
    {
        let mut line = self.line;
        loop
            invariant
                self.wf(),
                line < self.nlines(),
                self.line <= line,
                self.text.starts@[line as int] <= self.pos <= self.line_end(line as int),
                (Cursor {
                    text: self.text,
                    line: line,
                    pos: self.pos,
                }).spec_next() == self.spec_next(),
            decreases self.nlines() - line,
        {
            let end = if line < self.text.starts.len() - 1 {
                self.text.starts[line + 1]
            } else {
                self.text.chars.len()
            };
            if self.pos < end {
                return (line, self.pos + 1, Some(self.text.chars[self.pos]));
            } else if line < self.text.starts.len() - 1 {
                assert(self.text.starts@[line + 1] <= self.line_end(line + 1));
                line = line + 1;
            } else {
                return (line, self.pos, None);
            }
        }
    }

    /// Advances and returns the next character; `None` once the text is exhausted.
    pub fn bump(&mut self) -> (r: Option<FancyChar>)
        requires
            old(self).wf(),
        ensures
            (*final(self), r) == old(self).spec_next(),
            final(self).wf(),
    {
        proof {
            self.lemma_next();
        }
        let (line, pos, c) = self.next_state();
        self.line = line;
        self.pos = pos;
        c
    }

    /// The next character, without advancing.
    pub fn peek(&self) -> (r: Option<FancyChar>)
        requires
            self.wf(),
        ensures
            r == self.spec_next().1,
    {
        let (_, _, c) = self.next_state();
        c
    }

    /// Whether the next `bump` moves to another line (or finds the text exhausted).
    pub fn is_next_newline(&self) -> (r: bool)
        requires
            self.wf(),
        ensures
            r == self.spec_is_next_newline(),
    {
        let end = if self.line < self.text.starts.len() - 1 {
            self.text.starts[self.line + 1]
        } else {
            self.text.chars.len()
        };
        self.pos >= end
    }

    /// The number of the line the cursor is on.
    pub fn lines_number(&self) -> (r: usize)
        ensures
            r == self.line,
    {
        self.line
    }

    /// The byte offset, relative to the start of the current line, of the next
    /// character of that line, or the width of the line when none is left.
    pub fn offset(&self) -> (r: usize)
        requires
            self.wf(),
        ensures
            r == self.spec_offset(),
    {
        if !self.is_next_newline() {
            self.text.chars[self.pos].pos.index
        } else {
            self.text.widths[self.line]
        }
    }

    /// Consumes characters as long as the predicate returns `true`. The predicate
    /// gets the cursor and the next character (`None` once the text is
    /// exhausted).
    pub fn eat_while<F: Fn(&Cursor, Option<FancyChar>) -> bool>(&mut self, predicate: F)
        requires
            old(self).wf(),
            Self::stops_at_end(predicate),
        ensures
            final(self).wf(),
            exists|k: nat|
                #[trigger] old(self).advanced(k) == *final(self) && old(self).while_holds(
                    predicate,
                    k,
                ),
    {
        let ghost start = *self;
        let ghost mut k: nat = 0;
        loop
            invariant
                self.wf(),
                start.wf(),
                Self::stops_at_end(predicate),
                *self == start.advanced(k),
                forall|i: nat|
                    i < k ==> #[trigger] predicate.ensures(
                        (&start.advanced(i), start.advanced(i).spec_next().1),
                        true,
                    ),
            ensures
                self.wf(),
                *self == start.advanced(k),
                start.while_holds(predicate, k),
            decreases self.remaining(),
        {
            let next = self.peek();
            let go = predicate(&*self, next);
            if !go {
                break;
            }
            proof {
                self.lemma_next();
            }
            self.bump();
            proof {
                k = k + 1;
            }
        }
    }

    /// Appends characters to `buffer` and advances as long as the predicate
    /// returns `true`. Returns the span of the collected characters, or `None`
    /// when none was collected.
    pub fn collect_while<F: Fn(&Cursor, Option<FancyChar>) -> bool>(
        &mut self,
        buffer: &mut String,
        predicate: F,
    ) -> (r: Option<TokenPosition>)
        requires
            old(self).wf(),
            Self::stops_at_end(predicate),
        ensures
            final(self).wf(),
            old(self).spec_next().1 is None ==> *final(self) == *old(self) && final(buffer)@
                == old(buffer)@ && r is None,
            old(self).spec_next().1 is Some ==> exists|k: nat|
                #[trigger] old(self).advanced(k) == *final(self) && old(self).while_holds(
                    predicate,
                    k,
                ) && final(buffer)@ == old(buffer)@ + old(self).taken(k).map_values(
                    |f: FancyChar| f.v,
                ) && r == (if k == 0 {
                    None
                } else {
                    Some(
                        TokenPosition {
                            from: old(self).taken(k)[0].pos,
                            to: old(self).taken(k)[k - 1].pos,
                        },
                    )
                }),
    {
        let first = match self.peek() {
            Some(c) => c,
            None => {
                return None;
            },
        };
        let from = first.pos;
        let mut to = PositionInfo { line: usize::MAX, index: usize::MAX };
        let ghost start = *self;
        let ghost b0 = buffer@;
        let ghost mut k: nat = 0;
        let mut collected = false;
        loop
            invariant
                self.wf(),
                start.wf(),
                collected == (k > 0),
                start.spec_next().1 == Some(first),
                from == first.pos,
                Self::stops_at_end(predicate),
                *self == start.advanced(k),
                buffer@ == b0 + start.taken(k).map_values(|f: FancyChar| f.v),
                k > 0 ==> to == start.taken(k)[k - 1].pos,
                k > 0 ==> start.taken(k)[0] == first,
                forall|i: nat|
                    i < k ==> #[trigger] predicate.ensures(
                        (&start.advanced(i), start.advanced(i).spec_next().1),
                        true,
                    ),
            ensures
                self.wf(),
                collected == (k > 0),
                *self == start.advanced(k),
                start.while_holds(predicate, k),
                buffer@ == b0 + start.taken(k).map_values(|f: FancyChar| f.v),
                k > 0 ==> to == start.taken(k)[k - 1].pos,
                k > 0 ==> start.taken(k)[0] == first,
            decreases self.remaining(),
        {
            let next = self.peek();
            let go = predicate(&*self, next);
            if !go {
                break;
            }
            proof {
                self.lemma_next();
            }
            let val = self.bump();
            let c = match val {
                Some(c) => c,
                None => {
                    proof {
                        assert(false);
                    }
                    first
                },
            };
            to = c.pos;
            collected = true;
            push_char(buffer, c.v);
            proof {
                let ghost kk = k;
                start.lemma_taken_len(kk);
                k = k + 1;
                start.lemma_taken_len(k);
                assert(start.taken(k) == start.taken(kk).push(c));
                assert(start.taken(k).map_values(|f: FancyChar| f.v) =~= start.taken(
                    kk,
                ).map_values(|f: FancyChar| f.v).push(c.v));
                if kk == 0 {
                    assert(start.taken(k)[0] == c);
                } else {
                    assert(start.taken(k)[0] == start.taken(kk)[0]);
                }
            }
        }
        if collected {
            Some(TokenPosition { from, to })
        } else {
            None
        }
    }
}


/// What the cursor built from `s` holds: the lines of `s`, each character with
/// its line number and the byte index where it starts in its line, and the
/// byte width of each line.
pub open spec fn describes(c: Cursor, s: Seq<char>) -> bool {
    let lines = source_lines(s);
    &&& c.nlines() == lines.len()
    &&& forall|l: int| 0 <= l < c.nlines() ==> #[trigger] c.line_text(l) == lines[l]
    &&& forall|l: int, j: int|
        0 <= l < c.nlines() && 0 <= j < lines[l].len() ==> (#[trigger] c.text.chars@[c.text.starts@[l]
            + j]).pos == PositionInfo { line: l as usize, index: utf8_width(lines[l].take(j)) as usize }
    &&& forall|l: int| 0 <= l < c.nlines() ==> #[trigger] c.text.widths@[l] == utf8_width(lines[l])
    &&& c.text.ends_with_break == (s.len() > 0 && s.last() == '\n')
}

/// The state of the scan in `Cursor::from` after the characters `p`: the
/// complete lines and the current one, as `segments` gives them.
#[verifier::opaque]
spec fn scanned(
    chars: Seq<FancyChar>,
    starts: Seq<usize>,
    widths: Seq<usize>,
    off: usize,
    p: Seq<char>,
) -> bool {
    let segs = segments(p);
    let last = segs.len() - 1;
    &&& starts.len() == segs.len()
    &&& widths.len() == last
    &&& starts[0] == 0
    &&& forall|l: int, m: int| 0 <= l <= m <= last ==> #[trigger] starts[l] <= #[trigger] starts[m]
    &&& starts[last] <= chars.len()
    &&& chars.len() == starts[last] + segs[last].len()
    &&& forall|l: int| 0 <= l < segs.len() ==> #[trigger] line_text_of(chars, starts, l) == segs[l]
    &&& forall|l: int, j: int|
        0 <= l < segs.len() && 0 <= j < segs[l].len() ==> (#[trigger] chars[starts[l] + j]).pos
            == PositionInfo { line: l as usize, index: utf8_width(segs[l].take(j)) as usize }
    &&& forall|l: int| 0 <= l < last ==> #[trigger] widths[l] == utf8_width(segs[l])
    &&& off == utf8_width(segs[last])
}

/// A character that is not a line feed extends the current line.
proof fn lemma_scan_char(
    chars: Seq<FancyChar>,
    starts: Seq<usize>,
    widths: Seq<usize>,
    off: usize,
    p: Seq<char>,
    c: char,
    w: usize,
)
    requires
        scanned(chars, starts, widths, off, p),
        c != '\n',
        w == encode_scalar(c as u32).len(),
        off + w <= usize::MAX,
    ensures
        scanned(
            chars.push(FancyChar { v: c, pos: PositionInfo { line: (starts.len() - 1) as usize, index: off } }),
            starts,
            widths,
            (off + w) as usize,
            p.push(c),
        ),
{
    reveal(scanned);
    let line = starts.len() - 1;
    let fc = FancyChar { v: c, pos: PositionInfo { line: line as usize, index: off } };
    let chars2 = chars.push(fc);
    let segs = segments(p);
    let q = p.push(c);
    assert(q.drop_last() =~= p);
    lemma_segments_len(p);
    let segs2 = segments(q);
    assert(segs2 == segs.update(segs.len() - 1, segs.last().push(c)));
    lemma_utf8_width_push(segs.last(), c);
    assert forall|l: int| 0 <= l < segs2.len() implies #[trigger] line_text_of(chars2, starts, l)
        == segs2[l] by {
        assert(line_text_of(chars, starts, l) == segs[l]);
        assert(starts[l] <= starts[line]);
        if l < line {
            assert(starts[l] <= starts[l + 1]);
            assert(starts[l + 1] <= starts[line]);
            assert(chars2.subrange(starts[l] as int, starts[l + 1] as int) =~= chars.subrange(
                starts[l] as int,
                starts[l + 1] as int,
            ));
        } else {
            let a = chars.subrange(starts[l] as int, chars.len() as int);
            assert(chars2.subrange(starts[l] as int, chars2.len() as int) =~= a.push(fc));
            assert(line_text_of(chars2, starts, l) =~= segs[l].push(c));
        }
    }
    assert forall|l: int, j: int|
        0 <= l < segs2.len() && 0 <= j < segs2[l].len() implies (#[trigger] chars2[starts[l]
        + j]).pos == PositionInfo { line: l as usize, index: utf8_width(segs2[l].take(j)) as usize } by {
        assert(starts[l] <= starts[line]);
        if l == line {
            if j == segs[l].len() {
                assert(segs2[l].take(j) =~= segs[l]);
            } else {
                assert(segs2[l].take(j) =~= segs[l].take(j));
            }
        } else {
            assert(line_text_of(chars, starts, l).len() == segs[l].len());
            assert(starts[l] <= starts[l + 1]);
            assert(starts[l + 1] <= starts[line]);
        }
    }
}

/// A line feed ends the current line (dropping a carriage return before it)
/// and starts an empty one.
proof fn lemma_scan_newline(
    chars: Seq<FancyChar>,
    starts: Seq<usize>,
    widths: Seq<usize>,
    off: usize,
    p: Seq<char>,
    chars2: Seq<FancyChar>,
    off2: usize,
)
    requires
        scanned(chars, starts, widths, off, p),
        chars.len() < usize::MAX,
        ({
            let t = segments(p).last();
            if t.len() > 0 && t.last() == '\r' {
                chars2 == chars.drop_last() && off2 == off - 1
            } else {
                chars2 == chars && off2 == off
            }
        }),
    ensures
        scanned(chars2, starts.push(chars2.len() as usize), widths.push(off2), 0, p.push('\n')),
{
    reveal(scanned);
    let line = starts.len() - 1;
    let segs = segments(p);
    let t = segs[line];
    let q = p.push('\n');
    assert(q.drop_last() =~= p);
    lemma_segments_len(p);
    let segs2 = segments(q);
    let starts2 = starts.push(chars2.len() as usize);
    assert(segs2 == segs.update(segs.len() - 1, strip_cr(segs.last())).push(Seq::<char>::empty()));
    assert(encode_utf8(Seq::<char>::empty()) =~= Seq::<u8>::empty());
    assert(line_text_of(chars, starts, line) == t);
    if t.len() > 0 && t.last() == '\r' {
        assert(line_text_of(chars, starts, line)[t.len() - 1] == t.last());
        lemma_utf8_width_push(t.drop_last(), '\r');
        assert(t.drop_last().push('\r') =~= t);
    }
    assert(off2 == utf8_width(strip_cr(t)));
    assert(chars2.len() >= starts[line]);
    assert forall|l: int| 0 <= l < segs2.len() implies #[trigger] line_text_of(chars2, starts2, l)
        == segs2[l] by {
        if l < line {
            assert(line_text_of(chars, starts, l) == segs[l]);
            assert(starts[l] <= starts[l + 1]);
            assert(starts[l + 1] <= starts[line]);
            assert(chars2.subrange(starts[l] as int, starts[l + 1] as int) =~= chars.subrange(
                starts[l] as int,
                starts[l + 1] as int,
            ));
        } else if l == line {
            assert(line_text_of(chars2, starts2, l) =~= strip_cr(t));
        } else {
            assert(line_text_of(chars2, starts2, l) =~= Seq::<char>::empty());
        }
    }
    assert forall|l: int, j: int|
        0 <= l < segs2.len() && 0 <= j < segs2[l].len() implies (#[trigger] chars2[starts2[l]
        + j]).pos == PositionInfo { line: l as usize, index: utf8_width(segs2[l].take(j)) as usize } by {
        assert(l <= line);
        assert(starts[l] <= starts[line]);
        if l < line {
            assert(line_text_of(chars, starts, l).len() == segs[l].len());
            assert(starts[l] <= starts[l + 1]);
            assert(starts[l + 1] <= starts[line]);
        } else {
            assert(segs2[l].take(j) =~= t.take(j));
        }
        assert(chars2[starts[l] + j] == chars[starts[l] + j]);
    }
    assert forall|l: int, m: int| 0 <= l <= m <= segs2.len() - 1 implies #[trigger] starts2[l]
        <= #[trigger] starts2[m] by {
        if m == segs2.len() - 1 && l < m {
            assert(starts[l] <= starts[line]);
        }
    }
    assert forall|l: int| 0 <= l < segs2.len() - 1 implies #[trigger] widths.push(off2)[l]
        == utf8_width(segs2[l]) by {}
}

/// What the scan needs to know of its state at each step.
proof fn lemma_scan_facts(
    chars: Seq<FancyChar>,
    starts: Seq<usize>,
    widths: Seq<usize>,
    off: usize,
    p: Seq<char>,
)
    requires
        scanned(chars, starts, widths, off, p),
    ensures
        starts.len() == segments(p).len(),
        starts[starts.len() - 1] <= chars.len(),
        ({
            let t = segments(p).last();
            (t.len() > 0 && t.last() == '\r') == (chars.len() > starts[starts.len() - 1]
                && chars.last().v == '\r')
        }),
        ({
            let t = segments(p).last();
            t.len() > 0 && t.last() == '\r' ==> off >= 1
        }),
        off == utf8_width(segments(p).last()),
{
    reveal(scanned);
    lemma_segments_len(p);
    let line = starts.len() - 1;
    let t = segments(p).last();
    if t.len() > 0 {
        assert(line_text_of(chars, starts, line)[t.len() - 1] == t.last());
    }
    if t.len() > 0 && t.last() == '\r' {
        lemma_utf8_width_push(t.drop_last(), '\r');
        assert(t.drop_last().push('\r') =~= t);
    }
}

/// Appends `c` at the given position.
fn push_fancy(chars: &mut Vec<FancyChar>, c: char, line: usize, index: usize)
    ensures
        final(chars)@ == old(chars)@.push(FancyChar { v: c, pos: PositionInfo { line, index } }),
        final(chars)@.len() == old(chars)@.len() + 1,
        forall|k: int| 0 <= k < old(chars)@.len() ==> final(chars)@[k] == old(chars)@[k],
        final(chars)@[old(chars)@.len() as int] == (FancyChar { v: c, pos: PositionInfo { line, index } }),
{
    chars.push(FancyChar { v: c, pos: PositionInfo { line, index } });
}

impl Cursor {
    /// A cursor at the start of `src`.
    pub fn from(src: &str) -> (r: Cursor)
        ensures
            r.wf(),
            r.line == 0,
            r.pos == 0,
            describes(r, src@),
    {
        let cs = chars_of(src);
        let nbytes = src.as_bytes().len();
        let mut chars: Vec<FancyChar> = Vec::new();
        let mut starts: Vec<usize> = Vec::new();
        let mut widths: Vec<usize> = Vec::new();
        starts.push(0);
        let mut line: usize = 0;
        let mut off: usize = 0;
        let mut i: usize = 0;
        proof {
            reveal_with_fuel(segments, 2);
            reveal(scanned);
            assert(cs@.take(0) =~= Seq::<char>::empty());
            assert(line_text_of(chars@, starts@, 0) =~= Seq::<char>::empty());
        }
        while i < cs.len()
            invariant
                i <= cs.len(),
                cs@ == src@,
                nbytes == src.spec_bytes().len(),
                line + 1 == starts@.len(),
                scanned(chars@, starts@, widths@, off, cs@.take(i as int)),
                chars@.len() <= i,
                line <= i,
                forall|k: int|
                    0 <= k < chars@.len() ==> (#[trigger] chars@[k]).pos.line < usize::MAX
                        && chars@[k].pos.index < usize::MAX,
            decreases cs.len() - i,
        {
            let c = cs[i];
            let ghost p = cs@.take(i as int);
            proof {
                assert(cs@.take(i + 1) =~= p.push(c));
                lemma_segments_len(p);
                lemma_scan_facts(chars@, starts@, widths@, off, p);
            }
            if c == '\n' {
                let ghost chars0 = chars@;
                let ghost off0 = off;
                let ls = starts[line];
                if chars.len() > ls && chars[chars.len() - 1].v == '\r' {
                    chars.pop();
                    off = off - 1;
                }
                proof {
                    lemma_scan_newline(chars0, starts@, widths@, off0, p, chars@, off);
                    assert forall|k: int| 0 <= k < chars@.len() implies (#[trigger] chars@[k]).pos.line
                        < usize::MAX && chars@[k].pos.index < usize::MAX by {
                        assert(chars@[k] == chars0[k]);
                    }
                }
                widths.push(off);
                starts.push(chars.len());
                line = line + 1;
                off = 0;
            } else {
                let w = char_width(c);
                proof {
                    lemma_segments_last_width(p);
                    lemma_utf8_width_prefix(cs@, i + 1);
                    lemma_utf8_width_push(p, c);
                    assert(utf8_width(cs@) == src.spec_bytes().len());
                }
                let ghost chars0 = chars@;
                let ghost off0 = off;
                push_fancy(&mut chars, c, line, off);
                off = off + w;
                proof {
                    lemma_scan_char(chars0, starts@, widths@, off0, p, c, w);
                    assert forall|k: int| 0 <= k < chars@.len() implies (#[trigger] chars@[k]).pos.line
                        < usize::MAX && chars@[k].pos.index < usize::MAX by {
                        if k < chars0.len() {
                            assert(chars@[k] == chars0[k]);
                        } else {
                            assert(chars@[k] == (FancyChar { v: c, pos: PositionInfo { line, index: off0 } }));
                        }
                    }
                }
            }
            i = i + 1;
        }
        let ghost segs = segments(cs@.take(i as int));
        proof {
            assert(cs@.take(i as int) =~= src@);
            lemma_segments_len(src@);
            reveal(scanned);
        }
        let ends_with_newline = cs.len() > 0 && cs[cs.len() - 1] == '\n';
        if ends_with_newline {
            let ghost st = starts@;
            starts.pop();
            proof {
                assert(starts@ =~= st.drop_last());
                assert forall|l: int| 0 <= l < starts@.len() implies #[trigger] line_text_of(
                    chars@,
                    starts@,
                    l,
                ) == source_lines(src@)[l] by {
                    assert(line_text_of(chars@, st, l) == segs[l]);
                }
            }
        } else {
            widths.push(off);
        }
        let _ = chars.len();
        let _ = starts.len();
        let r = Cursor {
            text: Rc::new(SourceText { chars, starts, widths, ends_with_break: ends_with_newline }),
            line: 0,
            pos: 0,
        };
        proof {
            assert forall|l: int| 0 <= l < r.nlines() implies r.text.starts@[l] <= #[trigger] r.line_end(
                l,
            ) <= r.text.chars@.len() by {
                if l + 1 < r.nlines() {
                    assert(r.text.starts@[l] <= r.text.starts@[l + 1]);
                    assert(r.text.starts@[l + 1] <= r.text.starts@[r.nlines() - 1]);
                }
            }
        }
        r
    }
}

/// Spaces, tabs and carriage returns.
pub open spec fn is_blank(c: char) -> bool {
    c == ' ' || c == '\t' || c == '\r'
}

/// The characters that may follow the first one of an identifier.
pub open spec fn is_ident_char(c: char) -> bool {
    spec_is_ascii_alphabetic(c) || spec_is_ascii_digit(c) || c == '_'
}

/// The characters that `collect_line` takes: those of an identifier, or
/// numeric ones.
pub open spec fn in_class(ident: bool, c: char) -> bool {
    if ident {
        is_ident_char(c)
    } else {
        char_is_numeric(c)
    }
}

fn is_blank_exec(c: char) -> (r: bool)
    ensures
        r == is_blank(c),
{
    c == ' ' || c == '\t' || c == '\r'
}

fn in_class_exec(ident: bool, c: char) -> (r: bool)
    ensures
        r == in_class(ident, c),
{
    if ident {
        is_ascii_alphanumeric(c) || c == '_'
    } else {
        is_numeric(c)
    }
}

impl Cursor {
    /// The cursor after skipping blanks, across lines.
    pub open spec fn skip_blanks(self) -> Cursor
        decreases self.remaining(),
    {
        if self.wf() && self.spec_next().1 is Some && is_blank(self.spec_next().1.unwrap().v) {
            proof {
                self.lemma_next();
            }
            self.spec_next().0.skip_blanks()
        } else {
            self
        }
    }

    /// The cursor after skipping blanks on the current line.
    pub open spec fn skip_line_blanks(self) -> Cursor
        decreases self.remaining(),
    {
        if self.wf() && !self.spec_is_next_newline() && is_blank(self.spec_next().1.unwrap().v) {
            proof {
                self.lemma_next();
            }
            self.spec_next().0.skip_line_blanks()
        } else {
            self
        }
    }

    /// The cursor after skipping the rest of the current line.
    pub open spec fn skip_to_line_end(self) -> Cursor
        decreases self.remaining(),
    {
        if self.wf() && !self.spec_is_next_newline() {
            proof {
                self.lemma_next();
            }
            self.spec_next().0.skip_to_line_end()
        } else {
            self
        }
    }

    /// The cursor after taking, on the current line, the characters of the
    /// class, and the characters taken.
    pub open spec fn collect_line(self, ident: bool) -> (Cursor, Seq<FancyChar>)
        decreases self.remaining(),
    {
        if self.wf() && !self.spec_is_next_newline() && in_class(
            ident,
            self.spec_next().1.unwrap().v,
        ) {
            proof {
                self.lemma_next();
            }
            let r = self.spec_next().0.collect_line(ident);
            (r.0, seq![self.spec_next().1.unwrap()] + r.1)
        } else {
            (self, Seq::empty())
        }
    }

    /// The cursor moved to the start of the next line.
    pub open spec fn spec_next_line(self) -> Cursor {
        Cursor {
            text: self.text,
            line: (self.line + 1) as usize,
            pos: self.pos,
        }
    }

    /// What a cursor keeps through the skips: well-formedness and the text.
    pub open spec fn same_text(self, other: Cursor) -> bool {
        &&& other.wf()
        &&& other.text == self.text
        &&& other.remaining() <= self.remaining()
    }

    pub proof fn lemma_skips(self)
        requires
            self.wf(),
        ensures
            self.same_text(self.skip_blanks()),
            self.same_text(self.skip_line_blanks()),
            self.same_text(self.skip_to_line_end()),
            self.same_text(self.collect_line(true).0),
            self.same_text(self.collect_line(false).0),
            self.skip_to_line_end().spec_is_next_newline(),
            self.skip_to_line_end().line == self.line,
            self.skip_line_blanks().line == self.line,
        decreases self.remaining(),
    {
        self.lemma_next();
        let n = self.spec_next().0;
        if self.spec_next().1 is Some {
            n.lemma_skips();
        }
    }

    /// Skips blanks, across lines.
    pub fn eat_whitespace(&mut self)
        requires
            old(self).wf(),
        ensures
            *final(self) == old(self).skip_blanks(),
            final(self).wf(),
    {
        loop
            invariant
                self.wf(),
                self.skip_blanks() == old(self).skip_blanks(),
            decreases self.remaining(),
        {
            proof {
                self.lemma_next();
            }
            match self.peek() {
                Some(c) => {
                    if !is_blank_exec(c.v) {
                        return;
                    }
                },
                None => {
                    return;
                },
            }
            self.bump();
        }
    }

    /// Skips blanks on the current line.
    pub fn eat_line_whitespace(&mut self)
        requires
            old(self).wf(),
        ensures
            *final(self) == old(self).skip_line_blanks(),
            final(self).wf(),
    {
        loop
            invariant
                self.wf(),
                self.skip_line_blanks() == old(self).skip_line_blanks(),
            decreases self.remaining(),
        {
            proof {
                self.lemma_next();
            }
            if self.is_next_newline() {
                return;
            }
            match self.peek() {
                Some(c) => {
                    if !is_blank_exec(c.v) {
                        return;
                    }
                },
                None => {
                    return;
                },
            }
            self.bump();
        }
    }

    /// Skips the rest of the current line.
    pub fn eat_line(&mut self)
        requires
            old(self).wf(),
        ensures
            *final(self) == old(self).skip_to_line_end(),
            final(self).wf(),
    {
        loop
            invariant
                self.wf(),
                self.skip_to_line_end() == old(self).skip_to_line_end(),
            decreases self.remaining(),
        {
            proof {
                self.lemma_next();
            }
            if self.is_next_newline() {
                return;
            }
            self.bump();
        }
    }

    /// Takes, on the current line, the characters of the class (those of an
    /// identifier when `ident`, numeric ones otherwise), appending them to
    /// `buffer`; returns the position of the last one taken.
    pub fn collect_line_while(&mut self, buffer: &mut String, ident: bool) -> (r: Option<
        PositionInfo,
    >)
        requires
            old(self).wf(),
        ensures
            *final(self) == old(self).collect_line(ident).0,
            final(self).wf(),
            final(buffer)@ == old(buffer)@ + old(self).collect_line(ident).1.map_values(
                |f: FancyChar| f.v,
            ),
            r == (if old(self).collect_line(ident).1.len() == 0 {
                None
            } else {
                Some(old(self).collect_line(ident).1.last().pos)
            }),
    {
        let ghost start = *self;
        let ghost b0 = buffer@;
        let ghost mut taken: Seq<FancyChar> = Seq::empty();
        let mut last: Option<PositionInfo> = None;
        loop
            invariant
                self.wf(),
                start == *old(self),
                b0 == old(buffer)@,
                start.collect_line(ident) == (self.collect_line(ident).0, taken
                    + self.collect_line(ident).1),
                buffer@ == b0 + taken.map_values(|f: FancyChar| f.v),
                last == (if taken.len() == 0 {
                    None
                } else {
                    Some(taken.last().pos)
                }),
            decreases self.remaining(),
        {
            proof {
                self.lemma_next();
            }
            if self.is_next_newline() {
                proof {
                    assert(self.collect_line(ident) == (*self, Seq::<FancyChar>::empty()));
                    assert(taken + Seq::<FancyChar>::empty() =~= taken);
                }
                return last;
            }
            let c = match self.peek() {
                Some(c) => c,
                None => {
                    proof {
                        assert(taken + Seq::<FancyChar>::empty() =~= taken);
                    }
                    return last;
                },
            };
            if !in_class_exec(ident, c.v) {
                proof {
                    assert(taken + Seq::<FancyChar>::empty() =~= taken);
                }
                return last;
            }
            self.bump();
            push_char(buffer, c.v);
            last = Some(c.pos);
            proof {
                let rest = self.collect_line(ident);
                assert(taken + (seq![c] + rest.1) =~= taken.push(c) + rest.1);
                assert(taken.push(c).map_values(|f: FancyChar| f.v) =~= taken.map_values(
                    |f: FancyChar| f.v,
                ).push(c.v));
                taken = taken.push(c);
            }
        }
    }

    /// Moves to the start of the next line, once the current one is exhausted.
    pub fn next_line(&mut self)
        requires
            old(self).wf(),
            old(self).spec_is_next_newline(),
            old(self).line + 1 < old(self).nlines(),
        ensures
            *final(self) == old(self).spec_next_line(),
            final(self).wf(),
    {
        proof {
            assert(self.text.starts@[self.line + 1] <= self.line_end(self.line + 1));
        }
        let ghost old_self = *self;
        self.line = self.line + 1;
        proof {
            assert forall|l: int| 0 <= l < self.nlines() implies self.text.starts@[l] <= #[trigger] self.line_end(
                l,
            ) <= self.text.chars@.len() by {
                assert(old_self.line_end(l) <= old_self.text.chars@.len());
            }
        }
    }
}

/// Calls `Rc::clone`: another pointer to the same text, so equal to `text`.
#[verifier::external_body]
fn share(text: &Rc<SourceText>) -> (r: Rc<SourceText>)
    ensures
        r == *text,
{
    Rc::clone(text)
}

impl Clone for Cursor {
    /// A cursor at the same place of the same text; the text is shared.
    fn clone(&self) -> (r: Self)
        ensures
            r == *self,
    {
        Cursor { text: share(&self.text), line: self.line, pos: self.pos }
    }
}

/// The characters of line number `l` whose text is `line`, each with its
/// position: its line and the byte index where it starts in the line.
pub open spec fn line_chars(line: Seq<char>, l: int) -> Seq<(char, PositionInfo)> {
    line.map(
        |j: int, ch: char| (ch, PositionInfo { line: l as usize, index: utf8_width(line.take(j)) as usize }),
    )
}

/// The characters of the lines `lines`, one line after the other, each with
/// its position.
pub open spec fn chars_of_lines(lines: Seq<Seq<char>>) -> Seq<(char, PositionInfo)>
    decreases lines.len(),
{
    if lines.len() == 0 {
        Seq::empty()
    } else {
        chars_of_lines(lines.drop_last()) + line_chars(lines.last(), lines.len() - 1)
    }
}

/// The characters of the text `s`: those of its lines, in order, each with
/// its position.
pub open spec fn source_chars(s: Seq<char>) -> Seq<(char, PositionInfo)> {
    chars_of_lines(source_lines(s))
}

/// Characters with their positions, as pairs.
pub open spec fn with_positions(v: Seq<FancyChar>) -> Seq<(char, PositionInfo)> {
    v.map_values(|f: FancyChar| (f.v, f.pos))
}

impl Cursor {
    /// `bump` returns the character at `pos`, and returns one exactly when
    /// characters are left.
    pub proof fn lemma_next_char(self)
        requires
            self.wf(),
        ensures
            self.spec_next().1 is Some <==> self.pos < self.text.chars@.len(),
            self.spec_next().1 matches Some(f) ==> f == self.text.chars@[self.pos as int],
        decreases self.nlines() - self.line,
    {
        self.lemma_next();
        if self.pos < self.line_end(self.line as int) {
        } else if self.line + 1 < self.nlines() {
            let n = Cursor { text: self.text, line: (self.line + 1) as usize, pos: self.pos };
            assert forall|l: int| 0 <= l < n.nlines() implies n.text.starts@[l] <= #[trigger] n.line_end(
                l,
            ) <= n.text.chars@.len() by {
                assert(self.line_end(l) <= self.text.chars@.len());
            }
            assert(self.text.starts@[self.line + 1] <= self.line_end(self.line + 1));
            n.lemma_next_char();
        } else {
            assert(self.line_end(self.line as int) == self.text.chars@.len());
        }
    }

    /// `k` calls of `bump` from a cursor return the next `k` characters of
    /// the text, while there are that many.
    pub proof fn lemma_taken_chars(self, k: nat)
        requires
            self.wf(),
            self.pos + k <= self.text.chars@.len(),
        ensures
            self.advanced(k).pos == self.pos + k,
            self.taken(k) == self.text.chars@.subrange(self.pos as int, self.pos + k),
        decreases k,
    {
        if k > 0 {
            let k1 = (k - 1) as nat;
            self.lemma_taken_chars(k1);
            self.lemma_advanced(k1);
            let a = self.advanced(k1);
            a.lemma_next();
            a.lemma_next_char();
            assert(self.taken(k) =~= self.text.chars@.subrange(self.pos as int, self.pos + k));
        }
    }

    /// Once `bump` returns `None`, it returns `None` again after any number of
    /// further calls.
    pub proof fn lemma_none_stays(self, n: nat, m: nat)
        requires
            self.wf(),
            self.advanced(n).spec_next().1 is None,
        ensures
            self.advanced(n + m).spec_next().1 is None,
        decreases m,
    {
        if m > 0 {
            let m1 = (m - 1) as nat;
            self.lemma_none_stays(n, m1);
            self.lemma_advanced(n + m1);
            self.advanced(n + m1).lemma_next();
            assert(self.advanced(n + m) == self.advanced(n + m1).spec_next().0);
        }
    }
}

/// Where the first `n` lines of the cursor's text end in its characters.
pub open spec fn lines_end(c: Cursor, n: int) -> int {
    if n == 0 {
        0
    } else {
        c.line_end(n - 1)
    }
}

/// The characters of the first `n` lines that a cursor describes are those
/// of the first `n` lines of the text.
proof fn lemma_described_prefix(c: Cursor, s: Seq<char>, n: int)
    requires
        c.wf(),
        describes(c, s),
        0 <= n <= c.nlines(),
    ensures
        with_positions(c.text.chars@.take(lines_end(c, n))) == chars_of_lines(source_lines(s).take(n)),
    decreases n,
{
    let lines = source_lines(s);
    let chars = c.text.chars@;
    if n == 0 {
        assert(with_positions(chars.take(0)) =~= Seq::<(char, PositionInfo)>::empty());
        assert(lines.take(0) =~= Seq::<Seq<char>>::empty());
    } else {
        let l = n - 1;
        lemma_described_prefix(c, s, l);
        let st = c.text.starts@[l] as int;
        let en = c.line_end(l);
        assert(lines_end(c, l) == st);
        assert(st <= en <= chars.len());
        assert(c.line_text(l) == lines[l]);
        assert(c.line_text(l).len() == en - st);
        let piece = chars.subrange(st, en);
        assert forall|j: int| 0 <= j < lines[l].len() implies #[trigger] with_positions(piece)[j] == line_chars(lines[l], l)[j] by {
            assert(piece[j] == chars[st + j]);
            assert(c.line_text(l)[j] == chars[st + j].v);
            assert(chars[c.text.starts@[l] + j].pos == PositionInfo {
                line: l as usize,
                index: utf8_width(lines[l].take(j)) as usize,
            });
            assert(piece[j].v == lines[l][j]);
        }
        assert(with_positions(piece) =~= line_chars(lines[l], l));
        assert(chars.take(en) =~= chars.take(st) + piece);
        assert(with_positions(chars.take(en)) =~= with_positions(chars.take(st)) + with_positions(piece));
        assert(lines.take(n).drop_last() =~= lines.take(l));
        assert(lines.take(n).last() == lines[l]);
    }
}

/// The characters of a cursor's text are those of the text it describes.
pub proof fn lemma_described_chars(c: Cursor, s: Seq<char>)
    requires
        c.wf(),
        describes(c, s),
    ensures
        with_positions(c.text.chars@) == source_chars(s),
{
    lemma_described_prefix(c, s, c.nlines());
    assert(c.text.chars@.take(c.text.chars@.len() as int) =~= c.text.chars@);
    assert(source_lines(s).take(c.nlines()) =~= source_lines(s));
}

/// Bumping a cursor made from the text `s` gives the characters of the lines
/// of `s`, in order, each at its line and the byte index where it starts in
/// its line; after them it gives `None`, for good.
pub proof fn lemma_cursor_run(c: Cursor, s: Seq<char>, m: nat)
    requires
        c.wf(),
        describes(c, s),
        c.line == 0,
        c.pos == 0,
    ensures
        with_positions(c.taken(source_chars(s).len())) == source_chars(s),
        c.advanced(source_chars(s).len() + m).spec_next().1 is None,
{
    lemma_described_chars(c, s);
    let n = source_chars(s).len();
    assert(n == c.text.chars@.len());
    c.lemma_taken_chars(n);
    assert(c.text.chars@.subrange(0, n as int) =~= c.text.chars@);
    c.lemma_advanced(n);
    c.advanced(n).lemma_next_char();
    c.lemma_none_stays(n, m);
}

/// A character within the range of line `l` of a text lies on line `l`.
pub proof fn lemma_char_on_line(c: Cursor, s: Seq<char>, l: int, p: int)
    requires
        c.wf(),
        describes(c, s),
        0 <= l < c.nlines(),
        c.text.starts@[l] <= p < c.line_end(l),
    ensures
        c.text.chars@[p].pos.line == l,
{
    let lines = source_lines(s);
    let j = p - c.text.starts@[l];
    assert(c.line_text(l) == lines[l]);
    assert(c.line_end(l) <= c.text.chars@.len());
    assert(c.line_text(l).len() == c.line_end(l) - c.text.starts@[l]);
    assert(c.text.chars@[c.text.starts@[l] + j].pos == PositionInfo {
        line: l as usize,
        index: utf8_width(lines[l].take(j)) as usize,
    });
}

impl Cursor {
    /// The characters that `collect_line` takes are the next ones of the
    /// text, all within the current line.
    pub proof fn lemma_collect_line(self, ident: bool)
        requires
            self.wf(),
        ensures
            self.pos + self.collect_line(ident).1.len() <= self.line_end(self.line as int),
            self.collect_line(ident).1 == self.text.chars@.subrange(
                self.pos as int,
                self.pos + self.collect_line(ident).1.len(),
            ),
        decreases self.remaining(),
    {
        self.lemma_next();
        if !self.spec_is_next_newline() && in_class(ident, self.spec_next().1.unwrap().v) {
            let n = self.spec_next().0;
            assert(n.line == self.line && n.pos == self.pos + 1);
            n.lemma_collect_line(ident);
            let k = n.collect_line(ident).1.len();
            assert(self.collect_line(ident).1 =~= self.text.chars@.subrange(
                self.pos as int,
                self.pos + 1 + k,
            ));
        } else {
            assert(self.collect_line(ident).1 =~= self.text.chars@.subrange(
                self.pos as int,
                self.pos as int,
            ));
        }
    }
}

/// What a cursor describes depends on its text alone.
pub proof fn lemma_describes_same_text(c: Cursor, d: Cursor, s: Seq<char>)
    requires
        describes(c, s),
        d.text == c.text,
    ensures
        describes(d, s),
{
    assert forall|l: int| 0 <= l < d.nlines() implies #[trigger] d.line_text(l) == source_lines(s)[l] by {
        assert(d.line_text(l) == c.line_text(l));
    }
}

} // verus!
