//! Programs for the Little Man Computer: lines of an optional label and an
//! instruction, written out as assembly text.
use vstd::prelude::*;
use crate::pretty_print::{decimal, decimal_string};
use crate::text::{byte_len, push_char, push_str, spec_is_ascii_digit, utf8_width};

verus! {

pub const ADD: u16 = 100;

pub const SUB: u16 = 200;

pub const STA: u16 = 300;

pub const LDA: u16 = 500;

pub const BRA: u16 = 600;

pub const BRZ: u16 = 700;

pub const BRP: u16 = 800;

pub const INP: u16 = 901;

pub const OUT: u16 = 902;

pub const HLT: u16 = 0;

/// An instruction: the seven that take an operand (a label), the three that
/// take none, and a data word.
#[derive(Debug)]
pub enum Instruction {
    Add(String),
    Sub(String),
    Sta(String),
    Lda(String),
    Bra(String),
    Brz(String),
    Brp(String),
    Inp,
    Out,
    Hlt,
    /// A data word: its value, and the value written in decimal.
    Dat { operand: String, value: u16 },
}

/// What an instruction is.
pub enum SpecInstruction {
    Add(Seq<char>),
    Sub(Seq<char>),
    Sta(Seq<char>),
    Lda(Seq<char>),
    Bra(Seq<char>),
    Brz(Seq<char>),
    Brp(Seq<char>),
    Inp,
    Out,
    Hlt,
    Dat(Seq<char>, u16),
}

/// `s` without the `+` it may start with.
pub open spec fn sign_stripped(s: Seq<char>) -> Seq<char> {
    if s.len() > 0 && s[0] == '+' {
        s.drop_first()
    } else {
        s
    }
}

/// Whether every character of `d` is an ASCII digit.
pub open spec fn all_ascii_digits(d: Seq<char>) -> bool {
    forall|i: int| 0 <= i < d.len() ==> spec_is_ascii_digit(#[trigger] d[i])
}

/// The value of a string of decimal digits, as `u16::from_str` reads it: an
/// optional `+`, then one or more ASCII digits, whose value fits.
pub open spec fn decimal_u16(s: Seq<char>) -> Option<u16> {
    if sign_stripped(s).len() > 0 && all_ascii_digits(sign_stripped(s))
        && crate::ast::digits_value(sign_stripped(s)) <= u16::MAX {
        Some(crate::ast::digits_value(sign_stripped(s)) as u16)
    } else {
        None
    }
}

impl SpecInstruction {
    /// The numeric code of the instruction; a data word's is its value.
    pub open spec fn numeric(self) -> u16 {
        match self {
            SpecInstruction::Add(_) => ADD,
            SpecInstruction::Sub(_) => SUB,
            SpecInstruction::Sta(_) => STA,
            SpecInstruction::Lda(_) => LDA,
            SpecInstruction::Bra(_) => BRA,
            SpecInstruction::Brz(_) => BRZ,
            SpecInstruction::Brp(_) => BRP,
            SpecInstruction::Inp => INP,
            SpecInstruction::Out => OUT,
            SpecInstruction::Hlt => HLT,
            SpecInstruction::Dat(_, v) => v,
        }
    }

    /// The operand, if the instruction has one.
    pub open spec fn operand(self) -> Option<Seq<char>> {
        match self {
            SpecInstruction::Add(o) => Some(o),
            SpecInstruction::Sub(o) => Some(o),
            SpecInstruction::Sta(o) => Some(o),
            SpecInstruction::Lda(o) => Some(o),
            SpecInstruction::Bra(o) => Some(o),
            SpecInstruction::Brz(o) => Some(o),
            SpecInstruction::Brp(o) => Some(o),
            SpecInstruction::Inp => None,
            SpecInstruction::Out => None,
            SpecInstruction::Hlt => None,
            SpecInstruction::Dat(o, _) => Some(o),
        }
    }

    /// The instruction as assembly text.
    pub open spec fn mnemonic(self) -> Seq<char> {
        match self {
            SpecInstruction::Add(o) => "ADD "@ + o,
            SpecInstruction::Sub(o) => "SUB "@ + o,
            SpecInstruction::Sta(o) => "STA "@ + o,
            SpecInstruction::Lda(o) => "LDA "@ + o,
            SpecInstruction::Bra(o) => "BRA "@ + o,
            SpecInstruction::Brz(o) => "BRZ "@ + o,
            SpecInstruction::Brp(o) => "BRP "@ + o,
            SpecInstruction::Inp => "INP"@,
            SpecInstruction::Out => "OUT"@,
            SpecInstruction::Hlt => "HLT"@,
            SpecInstruction::Dat(o, _) => "DAT "@ + o,
        }
    }

    /// Whether the operand can be replaced by `o`: the instruction takes one,
    /// and a data word's new operand is a number.
    pub open spec fn takes_operand(self, o: Seq<char>) -> bool {
        match self {
            SpecInstruction::Inp | SpecInstruction::Out | SpecInstruction::Hlt => false,
            SpecInstruction::Dat(_, _) => decimal_u16(o) is Some,
            _ => true,
        }
    }

    /// The same instruction with the operand `o`.
    pub open spec fn with_operand(self, o: Seq<char>) -> SpecInstruction {
        match self {
            SpecInstruction::Add(_) => SpecInstruction::Add(o),
            SpecInstruction::Sub(_) => SpecInstruction::Sub(o),
            SpecInstruction::Sta(_) => SpecInstruction::Sta(o),
            SpecInstruction::Lda(_) => SpecInstruction::Lda(o),
            SpecInstruction::Bra(_) => SpecInstruction::Bra(o),
            SpecInstruction::Brz(_) => SpecInstruction::Brz(o),
            SpecInstruction::Brp(_) => SpecInstruction::Brp(o),
            SpecInstruction::Dat(_, _) => {
                let v = decimal_u16(o).unwrap();
                SpecInstruction::Dat(decimal(v as int), v)
            },
            _ => self,
        }
    }
}

/// The value of a string of decimal digits, as `u16::from_str` reads it.
pub fn parse_u16(s: &str) -> (r: Option<u16>)
    ensures
        r == decimal_u16(s@),
{
    let chars = crate::text::chars_of(s);
    let start: usize = if chars.len() > 0 && chars[0] == '+' {
        1
    } else {
        0
    };
    let ghost digits = sign_stripped(s@);
    assert(chars@.skip(start as int) =~= digits);
    if start >= chars.len() {
        return None;
    }
    let mut v: u32 = 0;
    let mut i: usize = start;
    while i < chars.len()
        invariant
            start <= i <= chars.len(),
            chars@ == s@,
            digits == sign_stripped(s@),
            chars@.skip(start as int) == digits,
            forall|j: int| start <= j < i ==> spec_is_ascii_digit(#[trigger] chars@[j]),
            v == crate::ast::digits_value(digits.take(i - start)),
            v <= u16::MAX,
        decreases chars.len() - i,
    {
        let c = chars[i];
        let u = c as u32;
        if !('0' as u32 <= u && u <= '9' as u32) {
            assert(digits[i - start] == c);
            assert(!spec_is_ascii_digit(digits[i - start]));
            assert(decimal_u16(s@) is None);
            return None;
        }
        let d = u - '0' as u32;
        assert(digits.take(i + 1 - start).drop_last() =~= digits.take(i - start));
        assert(digits.take(i + 1 - start).last() == c);
        let next = v * 10 + d;
        if next > 65535 {
            proof {
                assert(crate::ast::digits_value(digits.take(i + 1 - start)) == v * 10 + d);
                if all_ascii_digits(digits) {
                    crate::ast::lemma_digits_value_prefix(digits, i + 1 - start);
                }
                assert(decimal_u16(s@) is None);
            }
            return None;
        }
        v = next;
        i = i + 1;
    }
    assert(digits.take(chars.len() - start) =~= digits);
    assert forall|j: int| 0 <= j < digits.len() implies spec_is_ascii_digit(#[trigger] digits[j]) by {
        assert(digits[j] == chars@[j + start]);
    }
    Some(v as u16)
}

impl Instruction {
    pub open spec fn model(self) -> SpecInstruction {
        match self {
            Instruction::Add(o) => SpecInstruction::Add(o@),
            Instruction::Sub(o) => SpecInstruction::Sub(o@),
            Instruction::Sta(o) => SpecInstruction::Sta(o@),
            Instruction::Lda(o) => SpecInstruction::Lda(o@),
            Instruction::Bra(o) => SpecInstruction::Bra(o@),
            Instruction::Brz(o) => SpecInstruction::Brz(o@),
            Instruction::Brp(o) => SpecInstruction::Brp(o@),
            Instruction::Inp => SpecInstruction::Inp,
            Instruction::Out => SpecInstruction::Out,
            Instruction::Hlt => SpecInstruction::Hlt,
            Instruction::Dat { operand, value } => SpecInstruction::Dat(operand@, value),
        }
    }

    /// A data word's operand is its value in decimal.
    pub open spec fn wf(self) -> bool {
        match self {
            Instruction::Dat { operand, value } => operand@ == decimal(value as int),
            _ => true,
        }
    }

    /// A data word holding `value`.
    pub fn dat(value: u16) -> (r: Instruction)
        ensures
            r.wf(),
            r.model() == SpecInstruction::Dat(decimal(value as int), value),
    {
        Instruction::Dat { operand: decimal_string(value as i64), value }
    }

    /// The operand, if the instruction has one.
    pub fn get_operand(&self) -> (r: Option<&str>)
        ensures
            match r {
                Some(o) => self.model().operand() == Some(o@),
                None => self.model().operand() is None,
            },
    {
        match self {
            Instruction::Add(o) => Some(o.as_str()),
            Instruction::Sub(o) => Some(o.as_str()),
            Instruction::Sta(o) => Some(o.as_str()),
            Instruction::Lda(o) => Some(o.as_str()),
            Instruction::Bra(o) => Some(o.as_str()),
            Instruction::Brz(o) => Some(o.as_str()),
            Instruction::Brp(o) => Some(o.as_str()),
            Instruction::Inp => None,
            Instruction::Out => None,
            Instruction::Hlt => None,
            Instruction::Dat { operand, value: _ } => Some(operand.as_str()),
        }
    }

    /// The numeric code of the instruction; a data word's is its value.
    pub fn get_numeric(&self) -> (r: u16)
        ensures
            r == self.model().numeric(),
    {
        match self {
            Instruction::Add(_) => ADD,
            Instruction::Sub(_) => SUB,
            Instruction::Sta(_) => STA,
            Instruction::Lda(_) => LDA,
            Instruction::Bra(_) => BRA,
            Instruction::Brz(_) => BRZ,
            Instruction::Brp(_) => BRP,
            Instruction::Inp => INP,
            Instruction::Out => OUT,
            Instruction::Hlt => HLT,
            Instruction::Dat { operand: _, value } => *value,
        }
    }

    /// Whether the numeric code is `other`.
    pub fn is(&self, other: u16) -> (r: bool)
        ensures
            r == (self.model().numeric() == other),
    {
        self.get_numeric() == other
    }

    /// The instruction as assembly text.
    pub fn get_mnemonic(&self) -> (r: String)
        ensures
            r@ == self.model().mnemonic(),
    {
        let mut r = String::new();
        match self {
            Instruction::Add(o) => {
                push_str(&mut r, "ADD ");
                push_str(&mut r, o.as_str());
            },
            Instruction::Sub(o) => {
                push_str(&mut r, "SUB ");
                push_str(&mut r, o.as_str());
            },
            Instruction::Sta(o) => {
                push_str(&mut r, "STA ");
                push_str(&mut r, o.as_str());
            },
            Instruction::Lda(o) => {
                push_str(&mut r, "LDA ");
                push_str(&mut r, o.as_str());
            },
            Instruction::Bra(o) => {
                push_str(&mut r, "BRA ");
                push_str(&mut r, o.as_str());
            },
            Instruction::Brz(o) => {
                push_str(&mut r, "BRZ ");
                push_str(&mut r, o.as_str());
            },
            Instruction::Brp(o) => {
                push_str(&mut r, "BRP ");
                push_str(&mut r, o.as_str());
            },
            Instruction::Inp => push_str(&mut r, "INP"),
            Instruction::Out => push_str(&mut r, "OUT"),
            Instruction::Hlt => push_str(&mut r, "HLT"),
            Instruction::Dat { operand, value: _ } => {
                push_str(&mut r, "DAT ");
                push_str(&mut r, operand.as_str());
            },
        }
        assert(r@ =~= self.model().mnemonic());
        r
    }

    /// The same instruction with the operand `operand`.
    pub fn with_operand(&self, operand: &str) -> (r: Instruction)
        requires
            self.model().takes_operand(operand@),
        ensures
            r.wf(),
            r.model() == self.model().with_operand(operand@),
    {
        match self {
            Instruction::Add(_) => Instruction::Add(crate::text::string_from_str(operand)),
            Instruction::Sub(_) => Instruction::Sub(crate::text::string_from_str(operand)),
            Instruction::Sta(_) => Instruction::Sta(crate::text::string_from_str(operand)),
            Instruction::Lda(_) => Instruction::Lda(crate::text::string_from_str(operand)),
            Instruction::Bra(_) => Instruction::Bra(crate::text::string_from_str(operand)),
            Instruction::Brz(_) => Instruction::Brz(crate::text::string_from_str(operand)),
            Instruction::Brp(_) => Instruction::Brp(crate::text::string_from_str(operand)),
            Instruction::Dat { operand: _, value: _ } => {
                let v = parse_u16(operand).unwrap();
                Instruction::dat(v)
            },
            _ => {
                proof {
                    assert(false);
                }
                Instruction::Hlt
            },
        }
    }

    /// A copy of this instruction.
    pub fn clone_boxed(&self) -> (r: Instruction)
        ensures
            r.model() == self.model(),
            self.wf() ==> r.wf(),
    {
        match self {
            Instruction::Add(o) => Instruction::Add(o.clone()),
            Instruction::Sub(o) => Instruction::Sub(o.clone()),
            Instruction::Sta(o) => Instruction::Sta(o.clone()),
            Instruction::Lda(o) => Instruction::Lda(o.clone()),
            Instruction::Bra(o) => Instruction::Bra(o.clone()),
            Instruction::Brz(o) => Instruction::Brz(o.clone()),
            Instruction::Brp(o) => Instruction::Brp(o.clone()),
            Instruction::Inp => Instruction::Inp,
            Instruction::Out => Instruction::Out,
            Instruction::Hlt => Instruction::Hlt,
            Instruction::Dat { operand, value } => Instruction::Dat {
                operand: operand.clone(),
                value: *value,
            },
        }
    }
}

/// A line of a program: an optional label and an instruction.
#[derive(Debug)]
pub struct ProgramLine {
    pub label: Option<String>,
    pub inst: Instruction,
}

/// What a line is.
pub struct SpecLine {
    pub label: Option<Seq<char>>,
    pub inst: SpecInstruction,
}

/// The model of an optional label.
pub open spec fn label_model(label: Option<String>) -> Option<Seq<char>> {
    match label {
        Some(s) => Some(s@),
        None => None,
    }
}

impl ProgramLine {
    pub open spec fn model(self) -> SpecLine {
        SpecLine { label: label_model(self.label), inst: self.inst.model() }
    }

    /// A line of `label` and `inst`.
    pub fn new(label: Option<String>, inst: Instruction) -> (r: ProgramLine)
        ensures
            r.label == label,
            r.inst == inst,
    {
        ProgramLine { label, inst }
    }

    /// Whether the numeric code of the instruction is `other`.
    pub fn is(&self, other: u16) -> (r: bool)
        ensures
            r == (self.inst.model().numeric() == other),
    {
        self.inst.is(other)
    }

    /// The operand of the instruction, if it has one.
    pub fn get_operand(&self) -> (r: Option<&str>)
        ensures
            match r {
                Some(o) => self.inst.model().operand() == Some(o@),
                None => self.inst.model().operand() is None,
            },
    {
        self.inst.get_operand()
    }
}

/// The width that a line's label takes, in bytes.
pub open spec fn label_width(l: SpecLine) -> nat {
    match l.label {
        Some(s) => utf8_width(s),
        None => 0,
    }
}

/// The width of the longest label of `lines`, in bytes.
pub open spec fn longest_label(lines: Seq<SpecLine>) -> nat
    decreases lines.len(),
{
    if lines.len() == 0 {
        0
    } else {
        let rest = longest_label(lines.drop_last());
        if label_width(lines.last()) > rest {
            label_width(lines.last())
        } else {
            rest
        }
    }
}

/// `n` spaces.
pub open spec fn blanks(n: nat) -> Seq<char> {
    Seq::new(n, |i: int| ' ')
}

/// A line as text, its labels right-aligned in a column `w` bytes wide.
pub open spec fn line_text(l: SpecLine, w: nat) -> Seq<char> {
    (match l.label {
        Some(s) => blanks((w - utf8_width(s)) as nat) + s + seq![' '],
        None => blanks(w + 1),
    }) + l.inst.mnemonic() + seq!['\n']
}

/// Lines as text, their labels in a column `w` bytes wide.
pub open spec fn program_text(lines: Seq<SpecLine>, w: nat) -> Seq<char>
    decreases lines.len(),
{
    if lines.len() == 0 {
        Seq::empty()
    } else {
        program_text(lines.drop_last(), w) + line_text(lines.last(), w)
    }
}

/// No label is wider than the longest one.
proof fn lemma_longest_label(lines: Seq<SpecLine>, k: int)
    requires
        0 <= k < lines.len(),
    ensures
        label_width(lines[k]) <= longest_label(lines),
    decreases lines.len(),
{
    if k < lines.len() - 1 {
        lemma_longest_label(lines.drop_last(), k);
    }
}

/// Appends `n` spaces to `s`.
fn push_blanks(s: &mut String, n: usize)
    ensures
        final(s)@ == old(s)@ + blanks(n as nat),
{
    let mut k: usize = 0;
    while k < n
        invariant
            k <= n,
            s@ == old(s)@ + blanks(k as nat),
        decreases n - k,
    {
        push_char(s, ' ');
        k = k + 1;
        assert(s@ =~= old(s)@ + blanks(k as nat));
    }
}

/// A program: its lines in order.
#[derive(Debug)]
pub struct Program(pub Vec<ProgramLine>);

impl Program {
    pub open spec fn model(self) -> Seq<SpecLine> {
        self.0@.map_values(|l: ProgramLine| l.model())
    }

    /// Every data word's operand is its value in decimal.
    pub open spec fn wf(self) -> bool {
        forall|i: int| 0 <= i < self.0@.len() ==> (#[trigger] self.0@[i]).inst.wf()
    }

    /// A program with no line.
    pub fn new() -> (r: Program)
        ensures
            r.wf(),
            r.model() == Seq::<SpecLine>::empty(),
    {
        let r = Program(Vec::new());
        assert(r.model() =~= Seq::<SpecLine>::empty());
        r
    }

    /// Appends a line.
    pub fn push(&mut self, label: Option<String>, instruction: Instruction)
        requires
            old(self).wf(),
            instruction.wf(),
        ensures
            final(self).wf(),
            final(self).model() == old(self).model().push(
                SpecLine { label: label_model(label), inst: instruction.model() },
            ),
    {
        let line = ProgramLine::new(label, instruction);
        self.0.push(line);
        assert(self.model() =~= old(self).model().push(line.model()));
    }

    /// Takes out the line at `index`.
    pub fn remove(&mut self, index: usize) -> (r: ProgramLine)
        requires
            index < old(self).model().len(),
            old(self).wf(),
        ensures
            final(self).wf(),
            r.model() == old(self).model()[index as int],
            r.inst.wf(),
            final(self).model() == old(self).model().remove(index as int),
    {
        let r = self.0.remove(index);
        assert(self.model() =~= old(self).model().remove(index as int));
        r
    }

    /// The width of the longest label, in bytes.
    pub fn longest_label_width(&self) -> (r: usize)
        ensures
            r == longest_label(self.model()),
    {
        let ghost lines = self.model();
        let mut longest_label_len: usize = 0;
        let mut i: usize = 0;
        while i < self.0.len()
            invariant
                i <= self.0.len(),
                lines == self.model(),
                longest_label_len == longest_label(lines.take(i as int)),
            decreases self.0.len() - i,
        {
            assert(lines.take(i + 1).drop_last() =~= lines.take(i as int));
            let len = match &self.0[i].label {
                Some(s) => byte_len(s.as_str()),
                None => 0,
            };
            if len > longest_label_len {
                longest_label_len = len;
            }
            i = i + 1;
        }
        assert(lines.take(self.0.len() as int) =~= lines);
        longest_label_len
    }

    /// The program as assembly text: one line each, the labels right-aligned in
    /// a column as wide as the longest.
    pub fn get_program(&self) -> (r: String)
        requires
            longest_label(self.model()) < usize::MAX,
        ensures
            r@ == program_text(self.model(), longest_label(self.model())),
    {
        let ghost lines = self.model();
        let longest_label_len = self.longest_label_width();
        let mut result = String::new();
        let mut i: usize = 0;
        while i < self.0.len()
            invariant
                i <= self.0.len(),
                lines == self.model(),
                longest_label_len == longest_label(lines),
                longest_label_len < usize::MAX,
                result@ == program_text(lines.take(i as int), longest_label_len as nat),
            decreases self.0.len() - i,
        {
            proof {
                lemma_longest_label(lines, i as int);
                assert(lines.take(i + 1).drop_last() =~= lines.take(i as int));
            }
            let ghost before = result@;
            match &self.0[i].label {
                Some(label) => {
                    let width = byte_len(label.as_str());
                    push_blanks(&mut result, longest_label_len - width);
                    push_str(&mut result, label.as_str());
                    push_char(&mut result, ' ');
                },
                None => {
                    push_blanks(&mut result, longest_label_len + 1);
                },
            }
            let mnemonic = self.0[i].inst.get_mnemonic();
            push_str(&mut result, mnemonic.as_str());
            push_char(&mut result, '\n');
            assert(result@ =~= before + line_text(lines[i as int], longest_label_len as nat));
            i = i + 1;
        }
        assert(lines.take(self.0.len() as int) =~= lines);
        result
    }

    /// The lines of `self`, then those of `other`.
    pub fn merge(self, other: Program) -> (r: Program)
        requires
            self.wf(),
            other.wf(),
        ensures
            r.wf(),
            r.model() == self.model() + other.model(),
    {
        let mut lines = self.0;
        let mut rest = other.0;
        lines.append(&mut rest);
        let r = Program(lines);
        assert(r.model() =~= self.model() + other.model());
        r
    }

    /// The line at `index`.
    pub fn get_instruction(&self, index: usize) -> (r: &ProgramLine)
        requires
            index < self.model().len(),
        ensures
            r.model() == self.model()[index as int],
    {
        &self.0[index]
    }

    /// Appends a data word holding `dat`.
    pub fn push_dat(&mut self, label: Option<String>, dat: u16)
        requires
            old(self).wf(),
        ensures
            final(self).wf(),
            final(self).model() == old(self).model().push(
                SpecLine {
                    label: label_model(label),
                    inst: SpecInstruction::Dat(decimal(dat as int), dat),
                },
            ),
    {
        self.push(label, Instruction::dat(dat));
    }
}

/// The state of a run of a program on the Little Man Computer: the line
/// that runs next, the accumulator, the data words by their labels, the
/// input not yet read, what was output, and whether the run has stopped.
/// Values are whole numbers: a run whose values stay within `0..=999`
/// computes what the machine computes.
pub struct Machine {
    pub pc: int,
    pub acc: int,
    pub mem: Map<Seq<char>, int>,
    pub input: Seq<int>,
    pub output: Seq<int>,
    pub halted: bool,
}

/// The line that the label `l` names in `p`: one that carries it, or the end
/// of the program when none does.
pub open spec fn target(p: Seq<SpecLine>, l: Seq<char>) -> int {
    if exists|i: int| 0 <= i < p.len() && #[trigger] p[i].label == Some(l) {
        choose|i: int| 0 <= i < p.len() && #[trigger] p[i].label == Some(l)
    } else {
        p.len() as int
    }
}

/// Whether line `i` is the one line of `p` that carries the label `l`.
pub open spec fn names_line(p: Seq<SpecLine>, l: Seq<char>, i: int) -> bool {
    &&& 0 <= i < p.len()
    &&& p[i].label == Some(l)
    &&& forall|j: int| 0 <= j < p.len() && #[trigger] p[j].label == Some(l) ==> j == i
}

/// A label that one line carries names that line.
pub proof fn lemma_target(p: Seq<SpecLine>, l: Seq<char>, i: int)
    requires
        names_line(p, l, i),
    ensures
        target(p, l) == i,
{
}

/// One step of a run of `p`: the line at `pc` runs. A branch goes to the
/// line its label names (`BRZ` when the accumulator is zero, `BRP` when it
/// is not negative); `INP` with no input left, `HLT`, a data word and a
/// line outside the program stop the run.
pub open spec fn step(p: Seq<SpecLine>, m: Machine) -> Machine {
    if m.halted || m.pc < 0 || m.pc >= p.len() {
        Machine { halted: true, ..m }
    } else {
        let next = m.pc + 1;
        match p[m.pc].inst {
            SpecInstruction::Add(x) => Machine { pc: next, acc: m.acc + m.mem[x], ..m },
            SpecInstruction::Sub(x) => Machine { pc: next, acc: m.acc - m.mem[x], ..m },
            SpecInstruction::Sta(x) => Machine { pc: next, mem: m.mem.insert(x, m.acc), ..m },
            SpecInstruction::Lda(x) => Machine { pc: next, acc: m.mem[x], ..m },
            SpecInstruction::Bra(l) => Machine { pc: target(p, l), ..m },
            SpecInstruction::Brz(l) => Machine {
                pc: if m.acc == 0 {
                    target(p, l)
                } else {
                    next
                },
                ..m
            },
            SpecInstruction::Brp(l) => Machine {
                pc: if m.acc >= 0 {
                    target(p, l)
                } else {
                    next
                },
                ..m
            },
            SpecInstruction::Inp => if m.input.len() == 0 {
                Machine { halted: true, ..m }
            } else {
                Machine { pc: next, acc: m.input[0], input: m.input.drop_first(), ..m }
            },
            SpecInstruction::Out => Machine { pc: next, output: m.output.push(m.acc), ..m },
            SpecInstruction::Hlt => Machine { halted: true, ..m },
            SpecInstruction::Dat(_, _) => Machine { halted: true, ..m },
        }
    }
}

/// The state after `n` steps of a run of `p`.
pub open spec fn run(p: Seq<SpecLine>, m: Machine, n: nat) -> Machine
    decreases n,
{
    if n == 0 {
        m
    } else {
        run(p, step(p, m), (n - 1) as nat)
    }
}

/// Running `a` steps and then `b` more is running `a + b` steps.
pub proof fn lemma_run_split(p: Seq<SpecLine>, m: Machine, a: nat, b: nat)
    ensures
        run(p, m, a + b) == run(p, run(p, m, a), b),
    decreases a,
{
    if a > 0 {
        lemma_run_split(p, step(p, m), (a - 1) as nat, b);
        assert((a + b - 1) as nat == (a - 1) as nat + b);
    }
}

} // verus!
