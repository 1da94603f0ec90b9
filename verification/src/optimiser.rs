//! A peephole optimiser for Little Man Computer programs.
use vstd::prelude::*;
use crate::lmc::{
    label_model, lemma_target, run, step, target, Instruction, Machine, Program, ProgramLine,
    SpecInstruction, SpecLine, BRA, LDA, STA,
};
use crate::text::{push_char, push_str, str_eq};

verus! {

/// Whether the first rule applies at `i`: `STA x` then `LDA x`, neither
/// labelled; the `LDA` is useless.
pub open spec fn a_applies(lines: Seq<SpecLine>, i: int) -> bool {
    &&& 0 <= i
    &&& i + 1 < lines.len()
    &&& lines[i].inst.numeric() == STA
    &&& lines[i + 1].inst.numeric() == LDA
    &&& lines[i].inst.operand() == lines[i + 1].inst.operand()
    &&& lines[i].label is None
    &&& lines[i + 1].label is None
}

/// The first rule at `i`: the lines and the position after it.
pub open spec fn step_a(lines: Seq<SpecLine>, i: int) -> (Seq<SpecLine>, int) {
    if a_applies(lines, i) {
        (lines.remove(i + 1), i - 1)
    } else {
        (lines, i)
    }
}

/// Whether the line at `i` is a labelled branch, whose target is then compared
/// with the label of the next line.
pub open spec fn b_checks(lines: Seq<SpecLine>, i: int) -> bool {
    &&& 0 <= i
    &&& i + 1 < lines.len()
    &&& lines[i].inst.numeric() == BRA
    &&& lines[i].label is Some
    &&& lines[i].inst.operand() is Some
}

/// Whether the second rule applies at `i`: a labelled `BRA` to the label of
/// the next line is useless.
pub open spec fn b_applies(lines: Seq<SpecLine>, i: int) -> bool {
    b_checks(lines, i) && lines[i + 1].label == lines[i].inst.operand()
}

/// The label that replaces the labels `l1` and `l2`.
pub open spec fn merged_label(l1: Seq<char>, l2: Seq<char>) -> Seq<char> {
    "merged_"@ + l1 + seq!['_'] + l2
}

/// Whether the line refers to `l1` or `l2`.
pub open spec fn refers_to(l: SpecLine, l1: Seq<char>, l2: Seq<char>) -> bool {
    l.inst.operand() matches Some(o) && (o == l1 || o == l2)
}

/// The lines of `ls`, those from `lo` to `hi` (both included) that refer to
/// `l1` or `l2` made to refer to `m`.
pub open spec fn rewritten_between(
    ls: Seq<SpecLine>,
    lo: int,
    hi: int,
    l1: Seq<char>,
    l2: Seq<char>,
    m: Seq<char>,
) -> Seq<SpecLine> {
    Seq::new(
        ls.len(),
        |j: int|
            if lo <= j <= hi && refers_to(ls[j], l1, l2) {
                SpecLine { label: ls[j].label, inst: ls[j].inst.with_operand(m) }
            } else {
                ls[j]
            },
    )
}

/// Whether rewriting the references up to `hi` reaches an instruction whose
/// operand cannot be `m` (a data word).
pub open spec fn rewrite_fails(ls: Seq<SpecLine>, hi: int, l1: Seq<char>, l2: Seq<char>, m: Seq<char>) -> bool {
    exists|j: int| 0 <= j <= hi && refers_to(ls[j], l1, l2) && !(#[trigger] ls[j]).inst.takes_operand(m)
}

/// The second rule at `i`: the branch goes, the references to its label and
/// to its target before it are made to refer to a merged label, which the
/// target line takes.
pub open spec fn step_b(lines: Seq<SpecLine>, i: int) -> Seq<SpecLine> {
    if b_applies(lines, i) {
        let l1 = lines[i].label.unwrap();
        let l2 = lines[i].inst.operand().unwrap();
        let m = merged_label(l1, l2);
        let r = rewritten_between(lines.remove(i), 0, i, l1, l2, m);
        r.update(i, SpecLine { label: Some(m), inst: r[i].inst })
    } else {
        lines
    }
}

/// Whether the second rule at `i` cannot be carried out: the next line has
/// no label to compare, or a reference is a data word.
pub open spec fn b_fails(lines: Seq<SpecLine>, i: int) -> bool {
    ||| b_checks(lines, i) && lines[i + 1].label is None
    ||| b_applies(lines, i) && rewrite_fails(
        lines.remove(i),
        i,
        lines[i].label.unwrap(),
        lines[i].inst.operand().unwrap(),
        merged_label(lines[i].label.unwrap(), lines[i].inst.operand().unwrap()),
    )
}

/// What optimising gives from the position `i` on: `None` when it cannot be
/// carried out (an empty program, the first rule at the first line, or the
/// second rule failing).
pub open spec fn optimise_from(lines: Seq<SpecLine>, i: int) -> Option<Seq<SpecLine>>
    decreases 2 * lines.len() - i,
{
    if lines.len() == 0 || i < 0 {
        None
    } else if i >= lines.len() - 1 {
        Some(lines)
    } else if a_applies(lines, i) && i == 0 {
        None
    } else {
        let (l1, i1) = step_a(lines, i);
        if b_fails(l1, i1) {
            None
        } else {
            let l2 = step_b(l1, i1);
            if 2 * l2.len() - (i1 + 1) < 2 * lines.len() - i && 0 <= 2 * l2.len() - (i1 + 1) {
                optimise_from(l2, i1 + 1)
            } else {
                Some(l2)
            }
        }
    }
}

/// The optimiser: the program and the position of the line it looks at.
pub struct Optimiser {
    index: usize,
    program: Program,
}

impl Optimiser {
    /// The lines of the program.
    pub closed spec fn lines(self) -> Seq<SpecLine> {
        self.program.model()
    }

    /// The position of the line looked at.
    pub closed spec fn position(self) -> int {
        self.index as int
    }

    pub closed spec fn wf(self) -> bool {
        self.program.wf()
    }

    /// An optimiser at the first line of `program`.
    pub fn new(program: Program) -> (r: Optimiser)
        requires
            program.wf(),
        ensures
            r.wf(),
            r.lines() == program.model(),
            r.position() == 0,
    {
        Optimiser { program, index: 0 }
    }

    /// The line `offset` lines further, if any.
    fn peek(&self, offset: usize) -> (r: Option<&ProgramLine>)
        requires
            self.index + offset != self.program.model().len(),
            self.index + offset <= usize::MAX,
        ensures
            match r {
                Some(l) => self.index + offset < self.program.model().len() && l.model()
                    == self.program.model()[self.index + offset] && l.inst.wf() == self.program.0@[self.index + offset].inst.wf(),
                None => self.index + offset > self.program.model().len(),
            },
    {
        if self.index + offset > self.program.0.len() {
            return None;
        }
        Some(&self.program.0[self.index + offset])
    }

    /// The line looked at, if any.
    fn current(&self) -> (r: Option<&ProgramLine>)
        requires
            self.index != self.program.model().len(),
        ensures
            match r {
                Some(l) => self.index < self.program.model().len() && l.model()
                    == self.program.model()[self.index as int] && l.inst.wf() == self.program.0@[self.index as int].inst.wf(),
                None => self.index > self.program.model().len(),
            },
    {
        self.peek(0)
    }

    /// Replaces the line looked at.
    fn set_current(&mut self, program_line: ProgramLine)
        requires
            old(self).index < old(self).program.model().len(),
            old(self).program.wf(),
            program_line.inst.wf(),
        ensures
            final(self).program.wf(),
            final(self).index == old(self).index,
            final(self).program.model() == old(self).program.model().update(
                old(self).index as int,
                program_line.model(),
            ),
    {
        let ghost line = program_line.model();
        self.program.0.set(self.index, program_line);
        assert(self.program.model() =~= old(self).program.model().update(old(self).index as int, line));
    }
}

/// The model of an optional operand.
pub open spec fn operand_model(o: Option<&str>) -> Option<Seq<char>> {
    match o {
        Some(s) => Some(s@),
        None => None,
    }
}

/// Whether two optional operands are equal.
fn same_operand(a: Option<&str>, b: Option<&str>) -> (r: bool)
    ensures
        r == (operand_model(a) == operand_model(b)),
{
    match (a, b) {
        (Some(x), Some(y)) => str_eq(x, y),
        (None, None) => true,
        _ => false,
    }
}

/// A copy of an optional label.
fn clone_label(label: &Option<String>) -> (r: Option<String>)
    ensures
        label_model(r) == label_model(*label),
{
    match label {
        Some(s) => Some(s.clone()),
        None => None,
    }
}

/// Whether `inst` can take the operand `o`.
fn takes_operand(inst: &Instruction, o: &str) -> (r: bool)
    ensures
        r == inst.model().takes_operand(o@),
{
    match inst {
        Instruction::Inp | Instruction::Out | Instruction::Hlt => false,
        Instruction::Dat { .. } => crate::lmc::parse_u16(o).is_some(),
        _ => true,
    }
}

impl Optimiser {
    /// Runs both rules at each line, from the first to the one before the
    /// last; `None` where that cannot be carried out (see `optimise_from`).
    pub fn optimise_checked(self) -> (r: Option<Program>)
        requires
            self.wf(),
        ensures
            match r {
                Some(p) => p.wf() && optimise_from(self.lines(), self.position()) == Some(p.model()),
                None => optimise_from(self.lines(), self.position()) is None,
            },
    {
        let ghost result = optimise_from(self.lines(), self.position());
        if self.program.0.len() == 0 {
            return None;
        }
        let mut this = self;
        while this.index < this.program.0.len() - 1
            invariant
                this.program.wf(),
                this.program.model().len() > 0,
                optimise_from(this.program.model(), this.index as int) == result,
                result == optimise_from(self.lines(), self.position()),
            decreases 2 * this.program.0.len() - this.index,
        {
            let ghost lines = this.program.model();
            let ghost i = this.index as int;
            if this.index == 0 && this.a_applies_here() {
                return None;
            }
            this.a();
            let ghost l1 = this.program.model();
            let ghost i1 = this.index as int;
            if this.b_fails_here() {
                return None;
            }
            this.b();
            assert(this.program.model().len() == if b_applies(l1, i1) {
                l1.len() - 1
            } else {
                l1.len() as int
            });
            this.index = this.index + 1;
        }
        Some(this.program)
    }

    /// Runs both rules at each line, from the first to the one before the last.
    pub fn optimise(self) -> (r: Program)
        requires
            self.wf(),
            optimise_from(self.lines(), self.position()) is Some,
        ensures
            r.wf(),
            r.model() == optimise_from(self.lines(), self.position()).unwrap(),
    {
        match self.optimise_checked() {
            Some(p) => p,
            None => {
                proof {
                    assert(false);
                }
                Program::new()
            },
        }
    }

    /// Whether the first rule applies at the line looked at.
    fn a_applies_here(&self) -> (r: bool)
        requires
            self.index + 1 < self.program.model().len(),
        ensures
            r == a_applies(self.program.model(), self.index as int),
    {
        let length = self.program.0.len();
        assert(self.program.model().len() == length);
        let current = &self.program.0[self.index];
        let next = &self.program.0[self.index + 1];
        current.is(STA) && next.is(LDA) && same_operand(current.get_operand(), next.get_operand())
            && current.label.is_none() && next.label.is_none()
    }

    /// Whether the second rule cannot be carried out at the line looked at.
    fn b_fails_here(&self) -> (r: bool)
        requires
            self.index + 1 < self.program.model().len(),
        ensures
            r == b_fails(self.program.model(), self.index as int),
    {
        let ghost lines = self.program.model();
        let ghost i = self.index as int;
        let length = self.program.0.len();
        assert(lines.len() == length);
        let current = &self.program.0[self.index];
        let next = &self.program.0[self.index + 1];
        if !(current.is(BRA) && current.label.is_some() && current.get_operand().is_some()) {
            return false;
        }
        let next_label = match &next.label {
            Some(l) => l,
            None => {
                return true;
            },
        };
        let target = current.get_operand().unwrap();
        if !str_eq(target, next_label.as_str()) {
            return false;
        }
        let label_1 = current.label.as_ref().unwrap();
        let mut merged = String::new();
        push_str(&mut merged, "merged_");
        push_str(&mut merged, label_1.as_str());
        push_char(&mut merged, '_');
        push_str(&mut merged, target);
        let ghost l1 = label_1@;
        let ghost l2 = target@;
        let ghost m = merged_label(l1, l2);
        assert(merged@ =~= m);
        let ghost ls = lines.remove(i);
        let mut j: usize = 0;
        while j <= self.index
            invariant
                0 <= j <= self.index + 1,
                i == self.index,
                i + 1 < lines.len(),
                lines == self.program.model(),
                lines.len() == self.program.0@.len(),
                self.program.0@.len() <= usize::MAX,
                b_applies(lines, i),
                lines[i].label == Some(l1),
                lines[i].inst.operand() == Some(l2),
                ls == lines.remove(i),
                merged@ == m,
                m == merged_label(l1, l2),
                label_1@ == l1,
                target@ == l2,
                forall|k: int| 0 <= k < j ==> !(refers_to(ls[k], l1, l2) && !(#[trigger] ls[k]).inst.takes_operand(m)),
            decreases self.index + 1 - j,
        {
            let line = if j < self.index {
                &self.program.0[j]
            } else {
                &self.program.0[self.index + 1]
            };
            assert(line.model() == ls[j as int]);
            let hits = match line.get_operand() {
                Some(o) => str_eq(o, label_1.as_str()) || str_eq(o, target),
                None => false,
            };
            if hits && !takes_operand(&line.inst, merged.as_str()) {
                assert(refers_to(ls[j as int], l1, l2));
                assert(!ls[j as int].inst.takes_operand(m));
                assert(rewrite_fails(ls, i, l1, l2, m));
                return true;
            }
            j = j + 1;
        }
        false
    }

    /// The first rule: `STA x` then `LDA x`, neither labelled, loses its `LDA`;
    /// the position goes back one line.
    fn a(&mut self) -> (r: Option<()>)
        requires
            old(self).program.wf(),
            old(self).index + 1 < old(self).program.model().len(),
            !(a_applies(old(self).program.model(), old(self).index as int) && old(self).index == 0),
        ensures
            final(self).program.wf(),
            (final(self).program.model(), final(self).index as int) == step_a(
                old(self).program.model(),
                old(self).index as int,
            ),
    {
        let length = self.program.0.len();
        assert(self.program.model().len() == length);
        let current = match self.current() {
            Some(l) => l,
            None => {
                return None;
            },
        };
        let next = match self.peek(1) {
            Some(l) => l,
            None => {
                return None;
            },
        };
        if current.is(STA) && next.is(LDA) && same_operand(current.get_operand(), next.get_operand())
            && current.label.is_none() && next.label.is_none() {
            self.program.remove(self.index + 1);
            self.index = self.index - 1;
        }
        Some(())
    }

    /// The second rule: a labelled `BRA` to the label of the next line goes,
    /// and the references to either label before it, and that label, become
    /// one merged label.
    fn b(&mut self) -> (r: Option<()>)
        requires
            old(self).program.wf(),
            old(self).index + 1 < old(self).program.model().len(),
            !b_fails(old(self).program.model(), old(self).index as int),
        ensures
            final(self).program.wf(),
            final(self).program.model() == step_b(old(self).program.model(), old(self).index as int),
            final(self).index == old(self).index,
    {
        let ghost lines = self.program.model();
        let ghost i = self.index as int;
        let length = self.program.0.len();
        assert(self.program.model().len() == length);
        let current = match self.current() {
            Some(l) => l,
            None => {
                return None;
            },
        };
        let next = match self.peek(1) {
            Some(l) => l,
            None => {
                return None;
            },
        };
        if current.is(BRA) && current.label.is_some() && current.get_operand().is_some() {
            let target = current.get_operand().unwrap();
            let next_label = match &next.label {
                Some(l) => l,
                None => {
                    proof {
                        assert(false);
                    }
                    return None;
                },
            };
            if str_eq(target, next_label.as_str()) {
                let label_1 = match &current.label {
                    Some(l) => l.clone(),
                    None => {
                        return None;
                    },
                };
                let label_2 = crate::text::string_from_str(target);
                let mut merged = String::new();
                push_str(&mut merged, "merged_");
                push_str(&mut merged, label_1.as_str());
                push_char(&mut merged, '_');
                push_str(&mut merged, label_2.as_str());
                assert(merged@ =~= merged_label(label_1@, label_2@));
                self.program.remove(self.index);
                let index_snapshot = self.index;
                self.rewrite_references(label_1.as_str(), label_2.as_str(), merged.as_str());
                self.index = index_snapshot;
                let current = match self.current() {
                    Some(l) => l,
                    None => {
                        proof {
                            assert(false);
                        }
                        return None;
                    },
                };
                let inst = current.inst.clone_boxed();
                self.set_current(ProgramLine::new(Some(merged), inst));
                let ghost ls = lines.remove(i);
                let ghost rw = rewritten_between(ls, 0, i, label_1@, label_2@, merged@);
                assert(self.program.model() =~= rw.update(
                    i,
                    SpecLine { label: Some(merged@), inst: rw[i].inst },
                ));
                return Some(());
            }
        }
        None
    }

    /// Makes the lines from the one looked at back to the first refer to
    /// `merged` where they referred to `label_1` or `label_2`; the position
    /// ends at the first line.
    fn rewrite_references(&mut self, label_1: &str, label_2: &str, merged: &str)
        requires
            old(self).program.wf(),
            old(self).index < old(self).program.model().len(),
            !rewrite_fails(
                old(self).program.model(),
                old(self).index as int,
                label_1@,
                label_2@,
                merged@,
            ),
        ensures
            final(self).program.wf(),
            final(self).index == 0,
            final(self).program.model() == rewritten_between(
                old(self).program.model(),
                0,
                old(self).index as int,
                label_1@,
                label_2@,
                merged@,
            ),
    {
        let ghost ls = self.program.model();
        let ghost hi = self.index as int;
        assert(ls =~= rewritten_between(ls, hi + 1, hi, label_1@, label_2@, merged@));
        loop
            invariant_except_break
                self.program.model() == rewritten_between(
                    ls,
                    self.index + 1,
                    hi,
                    label_1@,
                    label_2@,
                    merged@,
                ),
            invariant
                self.program.wf(),
                self.index <= hi < ls.len(),
                self.program.model().len() == ls.len(),
                !rewrite_fails(ls, hi, label_1@, label_2@, merged@),
            ensures
                self.program.wf(),
                self.index == 0,
                self.program.model() == rewritten_between(ls, 0, hi, label_1@, label_2@, merged@),
            decreases self.index,
        {
            let ghost k = self.index as int;
            let current = match self.current() {
                Some(l) => l,
                None => {
                    proof {
                        assert(false);
                    }
                    return ;
                },
            };
            let hits = match current.get_operand() {
                Some(operand) => str_eq(operand, label_1) || str_eq(operand, label_2),
                None => false,
            };
            if hits {
                assert(refers_to(ls[k], label_1@, label_2@));
                assert(ls[k].inst.takes_operand(merged@));
                let line = ProgramLine::new(clone_label(&current.label), current.inst.with_operand(merged));
                self.set_current(line);
            }
            assert(self.program.model() =~= rewritten_between(
                ls,
                k,
                hi,
                label_1@,
                label_2@,
                merged@,
            ));
            if self.index == 0 {
                break;
            }
            self.index = self.index - 1;
        }
    }
}

/// Optimising never adds a line: the program it gives is at most as long as
/// the one it was given.
pub proof fn lemma_optimise_never_lengthens(lines: Seq<SpecLine>, i: int)
    ensures
        optimise_from(lines, i) matches Some(r) ==> r.len() <= lines.len(),
    decreases 2 * lines.len() - i,
{
    if lines.len() == 0 || i < 0 || i >= lines.len() - 1 || (a_applies(lines, i) && i == 0) {
    } else {
        let (l1, i1) = step_a(lines, i);
        if !b_fails(l1, i1) {
            let l2 = step_b(l1, i1);
            if 2 * l2.len() - (i1 + 1) < 2 * lines.len() - i && 0 <= 2 * l2.len() - (i1 + 1) {
                lemma_optimise_never_lengthens(l2, i1 + 1);
            }
        }
    }
}

/// Whether no two lines of `p` carry the same label.
pub open spec fn labels_distinct(p: Seq<SpecLine>) -> bool {
    forall|a: int, b: int|
        #![trigger p[a], p[b]]
        0 <= a < b < p.len() && p[a].label is Some ==> p[a].label != p[b].label
}

/// Where line `j` of a program goes when line `i + 1` is taken out.
pub open spec fn shifted(j: int, i: int) -> int {
    if j <= i {
        j
    } else {
        j - 1
    }
}

/// How a run of `p` and a run of `p` without the `LDA` at `i + 1` keep in
/// step: the same values, output and input; the line of one is the other's
/// shifted, and while the first stands at the removed `LDA`, the accumulator
/// already holds what it loads.
pub open spec fn first_rule_matches(p: Seq<SpecLine>, i: int, a: Machine, b: Machine) -> bool {
    &&& a.acc == b.acc
    &&& a.mem == b.mem
    &&& a.input == b.input
    &&& a.output == b.output
    &&& a.halted == b.halted
    &&& if a.pc == i + 1 {
        &&& b.pc == i + 1
        &&& !a.halted
        &&& p[i + 1].inst matches SpecInstruction::Lda(x) && a.mem[x] == a.acc
    } else {
        b.pc == shifted(a.pc, i)
    }
}

/// With distinct labels, and the line `i + 1` unlabelled, a label names in
/// `p` without that line the line it named, shifted.
proof fn lemma_target_after_removal(p: Seq<SpecLine>, i: int, l: Seq<char>)
    requires
        0 <= i,
        i + 1 < p.len(),
        p[i + 1].label is None,
        labels_distinct(p),
    ensures
        target(p.remove(i + 1), l) == shifted(target(p, l), i),
{
    let q = p.remove(i + 1);
    if exists|t: int| 0 <= t < p.len() && #[trigger] p[t].label == Some(l) {
        let t = choose|t: int| 0 <= t < p.len() && #[trigger] p[t].label == Some(l);
        assert(t != i + 1);
        let s = shifted(t, i);
        assert(q[s] == p[t]);
        assert forall|u: int| 0 <= u < q.len() && #[trigger] q[u].label == Some(l) implies u == s by {
            let v = if u <= i { u } else { u + 1 };
            assert(q[u] == p[v]);
            if v < t {
                assert(p[v].label != p[t].label);
            } else if t < v {
                assert(p[t].label != p[v].label);
            }
        }
        lemma_target(q, l, s);
        lemma_target(p, l, t);
    } else {
        assert forall|u: int| 0 <= u < q.len() implies #[trigger] q[u].label != Some(l) by {
            let v = if u <= i { u } else { u + 1 };
            assert(q[u] == p[v]);
        }
    }
}

/// One step of a run of `p` is matched by one step, or none, of the run of
/// `p` without the `LDA` at `i + 1`.
proof fn lemma_first_rule_step(p: Seq<SpecLine>, i: int, a: Machine, b: Machine)
    requires
        a_applies(p, i),
        p[i + 1].inst is Lda,
        labels_distinct(p),
        first_rule_matches(p, i, a, b),
    ensures
        first_rule_matches(p, i, step(p, a), step(p.remove(i + 1), b)) || (a.pc == i + 1
            && first_rule_matches(p, i, step(p, a), b)),
{
    let q = p.remove(i + 1);
    if a.halted || a.pc < 0 || a.pc >= p.len() {
    } else if a.pc == i + 1 {
        assert(first_rule_matches(p, i, step(p, a), b));
    } else {
        let j = a.pc;
        assert(q[shifted(j, i)] == p[j]);
        match p[j].inst {
            SpecInstruction::Bra(l) => {
                lemma_target_after_removal(p, i, l);
            },
            SpecInstruction::Brz(l) => {
                lemma_target_after_removal(p, i, l);
            },
            SpecInstruction::Brp(l) => {
                lemma_target_after_removal(p, i, l);
            },
            _ => {},
        }
    }
}

/// Every run of `p` is matched, step for step or faster, by a run of `p`
/// without the `LDA` at `i + 1`.
proof fn lemma_first_rule_run(p: Seq<SpecLine>, i: int, a: Machine, b: Machine, n: nat)
    requires
        a_applies(p, i),
        p[i + 1].inst is Lda,
        labels_distinct(p),
        first_rule_matches(p, i, a, b),
    ensures
        exists|k: nat| k <= n && first_rule_matches(p, i, run(p, a, n), #[trigger] run(p.remove(i + 1), b, k)),
    decreases n,
{
    let q = p.remove(i + 1);
    if n == 0 {
        assert(run(q, b, 0) == b);
    } else {
        lemma_first_rule_step(p, i, a, b);
        let n1 = (n - 1) as nat;
        if first_rule_matches(p, i, step(p, a), step(q, b)) {
            lemma_first_rule_run(p, i, step(p, a), step(q, b), n1);
            let k = choose|k: nat| k <= n1 && first_rule_matches(p, i, run(p, step(p, a), n1), #[trigger] run(q, step(q, b), k));
            assert(run(q, b, k + 1) == run(q, step(q, b), k));
        } else {
            lemma_first_rule_run(p, i, step(p, a), b, n1);
            let k = choose|k: nat| k <= n1 && first_rule_matches(p, i, run(p, step(p, a), n1), #[trigger] run(q, b, k));
        }
    }
}

/// The first rule keeps what a program does: where `STA x` is followed by
/// `LDA x`, neither labelled, and no two lines carry the same label, every
/// run of the program is matched by a run of the program without the `LDA`,
/// started at the same line, in no more steps, with the same accumulator,
/// data, input left, output, and the same answer to whether it stopped.
pub proof fn lemma_first_rule_keeps_runs(p: Seq<SpecLine>, i: int, m: Machine, n: nat)
    requires
        a_applies(p, i),
        p[i + 1].inst is Lda,
        labels_distinct(p),
        m.pc != i + 1,
    ensures
        step_a(p, i).0 == p.remove(i + 1),
        exists|k: nat|
            k <= n && {
                let r = run(p, m, n);
                let s = #[trigger] run(step_a(p, i).0, Machine { pc: shifted(m.pc, i), ..m }, k);
                &&& r.output == s.output
                &&& r.input == s.input
                &&& r.acc == s.acc
                &&& r.mem == s.mem
                &&& r.halted == s.halted
            },
{
    let b = Machine { pc: shifted(m.pc, i), ..m };
    lemma_first_rule_run(p, i, m, b, n);
    let k = choose|k: nat| k <= n && first_rule_matches(p, i, run(p, m, n), #[trigger] run(p.remove(i + 1), b, k));
    assert(run(step_a(p, i).0, b, k) == run(p.remove(i + 1), b, k));
}

/// Whether the instruction is a branch.
pub open spec fn is_branch(inst: SpecInstruction) -> bool {
    inst is Bra || inst is Brz || inst is Brp
}

/// The line `l`, made to refer to `m` when it refers to `l1` or `l2`.
pub open spec fn renamed(l: SpecLine, l1: Seq<char>, l2: Seq<char>, m: Seq<char>) -> SpecLine {
    if refers_to(l, l1, l2) {
        SpecLine { label: l.label, inst: l.inst.with_operand(m) }
    } else {
        l
    }
}

/// The conditions under which the second rule at `i` keeps what the program
/// does: the line is a branch; no two lines carry the same label; the merged
/// label is neither carried nor referred to; only branches refer to the two
/// labels it merges, and none after the target line.
pub open spec fn second_rule_safe(p: Seq<SpecLine>, i: int) -> bool {
    &&& b_applies(p, i)
    &&& p[i].inst is Bra
    &&& labels_distinct(p)
    &&& {
        let l1 = p[i].label.unwrap();
        let l2 = p[i].inst.operand().unwrap();
        let m = merged_label(l1, l2);
        &&& forall|u: int| 0 <= u < p.len() ==> (#[trigger] p[u]).label != Some(m)
        &&& forall|u: int| 0 <= u < p.len() ==> (#[trigger] p[u]).inst.operand() != Some(m)
        &&& forall|u: int|
            0 <= u < p.len() && refers_to(#[trigger] p[u], l1, l2) ==> is_branch(p[u].inst) && u <= i + 1
    }
}

/// The lines after the second rule at `i`: those before, renamed; the target
/// line, renamed and carrying the merged label; those after, as they were.
proof fn lemma_second_rule_shape(p: Seq<SpecLine>, i: int)
    requires
        second_rule_safe(p, i),
    ensures
        ({
            let l1 = p[i].label.unwrap();
            let l2 = p[i].inst.operand().unwrap();
            let m = merged_label(l1, l2);
            let q = step_b(p, i);
            &&& q.len() == p.len() - 1
            &&& forall|u: int| 0 <= u < i ==> #[trigger] q[u] == renamed(p[u], l1, l2, m)
            &&& q[i] == SpecLine { label: Some(m), inst: renamed(p[i + 1], l1, l2, m).inst }
            &&& forall|u: int| i < u < q.len() ==> #[trigger] q[u] == p[u + 1]
        }),
{
}

/// After the second rule at `i`, a label other than the two it merges, and
/// other than the merged one, names the line it named, shifted.
proof fn lemma_target_after_merge(p: Seq<SpecLine>, i: int, l: Seq<char>)
    requires
        second_rule_safe(p, i),
        l != p[i].label.unwrap(),
        l != p[i].inst.operand().unwrap(),
        l != merged_label(p[i].label.unwrap(), p[i].inst.operand().unwrap()),
    ensures
        target(step_b(p, i), l) == shifted(target(p, l), i),
{
    let l1 = p[i].label.unwrap();
    let l2 = p[i].inst.operand().unwrap();
    let m = merged_label(l1, l2);
    let q = step_b(p, i);
    lemma_second_rule_shape(p, i);
    assert forall|u: int| 0 <= u < q.len() && u != i implies #[trigger] q[u].label == p[if u < i {
        u
    } else {
        u + 1
    }].label by {
        if u < i {
            assert(q[u] == renamed(p[u], l1, l2, m));
        } else {
            assert(q[u] == p[u + 1]);
        }
    }
    if exists|t: int| 0 <= t < p.len() && #[trigger] p[t].label == Some(l) {
        let t = choose|t: int| 0 <= t < p.len() && #[trigger] p[t].label == Some(l);
        assert(t != i && t != i + 1);
        let s = shifted(t, i);
        assert(q[s].label == Some(l));
        assert forall|u: int| 0 <= u < q.len() && #[trigger] q[u].label == Some(l) implies u == s by {
            if u != i {
                let v = if u < i { u } else { u + 1 };
                assert(q[u].label == p[v].label);
                if v < t {
                    assert(p[v].label != p[t].label);
                } else if t < v {
                    assert(p[t].label != p[v].label);
                }
            }
        }
        lemma_target(q, l, s);
        lemma_target(p, l, t);
    } else {
        assert forall|u: int| 0 <= u < q.len() implies #[trigger] q[u].label != Some(l) by {
            if u != i {
                let v = if u < i { u } else { u + 1 };
                assert(q[u].label == p[v].label);
            }
        }
    }
}

/// How a run of `p` and a run of `p` after the second rule at `i` keep in
/// step: the same values, output and input, and the line of one is the
/// other's shifted (the removed branch and its target both become the
/// target's new place).
pub open spec fn second_rule_matches(i: int, a: Machine, b: Machine) -> bool {
    &&& a.acc == b.acc
    &&& a.mem == b.mem
    &&& a.input == b.input
    &&& a.output == b.output
    &&& a.halted == b.halted
    &&& b.pc == shifted(a.pc, i)
}

/// One step of a run of `p` is matched by one step, or none, of the run of
/// `p` after the second rule at `i`.
proof fn lemma_second_rule_step(p: Seq<SpecLine>, i: int, a: Machine, b: Machine)
    requires
        second_rule_safe(p, i),
        second_rule_matches(i, a, b),
    ensures
        second_rule_matches(i, step(p, a), step(step_b(p, i), b)) || (a.pc == i
            && second_rule_matches(i, step(p, a), b)),
{
    let l1 = p[i].label.unwrap();
    let l2 = p[i].inst.operand().unwrap();
    let m = merged_label(l1, l2);
    let q = step_b(p, i);
    lemma_second_rule_shape(p, i);
    if a.halted || a.pc < 0 || a.pc >= p.len() {
    } else if a.pc == i {
        assert forall|u: int| 0 <= u < p.len() && #[trigger] p[u].label == Some(l2) implies u == i + 1 by {
            if u < i + 1 {
                assert(p[u].label != p[i + 1].label);
            } else if u > i + 1 {
                assert(p[i + 1].label != p[u].label);
            }
        }
        lemma_target(p, l2, i + 1);
        assert(second_rule_matches(i, step(p, a), b));
    } else {
        let j = a.pc;
        let s = shifted(j, i);
        assert(q[s].inst == renamed(p[j], l1, l2, m).inst) by {
            if j < i {
                assert(q[j] == renamed(p[j], l1, l2, m));
            } else if j > i + 1 {
                assert(q[j - 1] == p[j]);
                assert(!refers_to(p[j], l1, l2));
            }
        }
        if refers_to(p[j], l1, l2) {
            assert(is_branch(p[j].inst));
            assert forall|u: int| 0 <= u < q.len() && #[trigger] q[u].label == Some(m) implies u == i by {
                if u < i {
                    assert(q[u] == renamed(p[u], l1, l2, m));
                } else if u > i {
                    assert(q[u] == p[u + 1]);
                }
            }
            lemma_target(q, m, i);
            assert forall|u: int| 0 <= u < p.len() && #[trigger] p[u].label == Some(l2) implies u == i + 1 by {
                if u < i + 1 {
                    assert(p[u].label != p[i + 1].label);
                } else if u > i + 1 {
                    assert(p[i + 1].label != p[u].label);
                }
            }
            lemma_target(p, l2, i + 1);
            assert forall|u: int| 0 <= u < p.len() && #[trigger] p[u].label == Some(l1) implies u == i by {
                if u < i {
                    assert(p[u].label != p[i].label);
                } else if u > i {
                    assert(p[i].label != p[u].label);
                }
            }
            lemma_target(p, l1, i);
        } else {
            match p[j].inst {
                SpecInstruction::Bra(l) => {
                    lemma_target_after_merge(p, i, l);
                },
                SpecInstruction::Brz(l) => {
                    lemma_target_after_merge(p, i, l);
                },
                SpecInstruction::Brp(l) => {
                    lemma_target_after_merge(p, i, l);
                },
                _ => {},
            }
        }
    }
}

/// Every run of `p` is matched, step for step or faster, by a run of `p`
/// after the second rule at `i`.
proof fn lemma_second_rule_run(p: Seq<SpecLine>, i: int, a: Machine, b: Machine, n: nat)
    requires
        second_rule_safe(p, i),
        second_rule_matches(i, a, b),
    ensures
        exists|k: nat| k <= n && second_rule_matches(i, run(p, a, n), #[trigger] run(step_b(p, i), b, k)),
    decreases n,
{
    let q = step_b(p, i);
    if n == 0 {
        assert(run(q, b, 0) == b);
    } else {
        lemma_second_rule_step(p, i, a, b);
        let n1 = (n - 1) as nat;
        if second_rule_matches(i, step(p, a), step(q, b)) {
            lemma_second_rule_run(p, i, step(p, a), step(q, b), n1);
            let k = choose|k: nat| k <= n1 && second_rule_matches(i, run(p, step(p, a), n1), #[trigger] run(q, step(q, b), k));
            assert(run(q, b, k + 1) == run(q, step(q, b), k));
        } else {
            lemma_second_rule_run(p, i, step(p, a), b, n1);
            let k = choose|k: nat| k <= n1 && second_rule_matches(i, run(p, step(p, a), n1), #[trigger] run(q, b, k));
        }
    }
}

/// The second rule keeps what a program does, where it is safe (see
/// `second_rule_safe`): every run of the program is matched by a run of the
/// rewritten one, started at the same line shifted, in no more steps, with
/// the same accumulator, data, input left, output, and the same answer to
/// whether it stopped.
pub proof fn lemma_second_rule_keeps_runs(p: Seq<SpecLine>, i: int, m: Machine, n: nat)
    requires
        second_rule_safe(p, i),
    ensures
        exists|k: nat|
            k <= n && {
                let r = run(p, m, n);
                let s = #[trigger] run(step_b(p, i), Machine { pc: shifted(m.pc, i), ..m }, k);
                &&& r.output == s.output
                &&& r.input == s.input
                &&& r.acc == s.acc
                &&& r.mem == s.mem
                &&& r.halted == s.halted
            },
{
    let b = Machine { pc: shifted(m.pc, i), ..m };
    lemma_second_rule_run(p, i, m, b, n);
}

/// Whether two states of runs hold the same: accumulator, data, input left,
/// output, and whether the run has stopped.
pub open spec fn same_values(a: Machine, b: Machine) -> bool {
    &&& a.acc == b.acc
    &&& a.mem == b.mem
    &&& a.input == b.input
    &&& a.output == b.output
    &&& a.halted == b.halted
}

/// Whether `n` steps of a run of `p` from `m` are matched by a run of `q`
/// from `m` in no more steps that holds the same.
pub open spec fn run_matched(p: Seq<SpecLine>, q: Seq<SpecLine>, m: Machine, n: nat) -> bool {
    exists|k: nat| k <= n && same_values(run(p, m, n), #[trigger] run(q, m, k))
}

/// Whether `q` does what `p` does: every run of `p` from the first line is
/// matched by a run of `q` from the first line, in no more steps, that holds
/// the same.
pub open spec fn runs_kept(p: Seq<SpecLine>, q: Seq<SpecLine>) -> bool {
    forall|m: Machine, n: nat| m.pc == 0 ==> #[trigger] run_matched(p, q, m, n)
}

/// A program does what it does.
proof fn lemma_runs_kept_refl(p: Seq<SpecLine>)
    ensures
        runs_kept(p, p),
{
    assert forall|m: Machine, n: nat| m.pc == 0 implies #[trigger] run_matched(p, p, m, n) by {
        assert(same_values(run(p, m, n), run(p, m, n)));
    }
}

/// Doing what a program does that does what `p` does is doing what `p` does.
proof fn lemma_runs_kept_trans(p: Seq<SpecLine>, q: Seq<SpecLine>, r: Seq<SpecLine>)
    requires
        runs_kept(p, q),
        runs_kept(q, r),
    ensures
        runs_kept(p, r),
{
    assert forall|m: Machine, n: nat| m.pc == 0 implies #[trigger] run_matched(p, r, m, n) by {
        assert(run_matched(p, q, m, n));
        let k1 = choose|k: nat| k <= n && same_values(run(p, m, n), #[trigger] run(q, m, k));
        assert(run_matched(q, r, m, k1));
        let k2 = choose|k: nat| k <= k1 && same_values(run(q, m, k1), #[trigger] run(r, m, k));
        assert(same_values(run(p, m, n), run(r, m, k2)));
    }
}

/// Whether every rewrite that optimising from `i` makes keeps what the
/// program does: each `LDA` the first rule removes is an `LDA` (not a data
/// word) in a program whose labels are distinct, and the second rule is
/// applied only where `second_rule_safe` holds.
pub open spec fn optimise_safe(lines: Seq<SpecLine>, i: int) -> bool
    decreases 2 * lines.len() - i,
{
    if lines.len() == 0 || i < 0 || i >= lines.len() - 1 || (a_applies(lines, i) && i == 0) {
        true
    } else {
        let (l1, i1) = step_a(lines, i);
        &&& a_applies(lines, i) ==> lines[i + 1].inst is Lda && labels_distinct(lines)
        &&& !b_fails(l1, i1) ==> {
            &&& b_applies(l1, i1) ==> second_rule_safe(l1, i1)
            &&& {
                let l2 = step_b(l1, i1);
                2 * l2.len() - (i1 + 1) < 2 * lines.len() - i && 0 <= 2 * l2.len() - (i1 + 1)
                    ==> optimise_safe(l2, i1 + 1)
            }
        }
    }
}

/// The first rule, where `optimise_safe` allows it, keeps what the program
/// does.
proof fn lemma_first_rule_kept(p: Seq<SpecLine>, i: int)
    requires
        a_applies(p, i),
        p[i + 1].inst is Lda,
        labels_distinct(p),
    ensures
        runs_kept(p, step_a(p, i).0),
{
    assert forall|m: Machine, n: nat| m.pc == 0 implies #[trigger] run_matched(p, step_a(p, i).0, m, n) by {
        lemma_first_rule_keeps_runs(p, i, m, n);
        assert(Machine { pc: shifted(m.pc, i), ..m } == m);
        let k = choose|k: nat|
            k <= n && {
                let r = run(p, m, n);
                let s = #[trigger] run(step_a(p, i).0, Machine { pc: shifted(m.pc, i), ..m }, k);
                &&& r.output == s.output
                &&& r.input == s.input
                &&& r.acc == s.acc
                &&& r.mem == s.mem
                &&& r.halted == s.halted
            };
        assert(same_values(run(p, m, n), run(step_a(p, i).0, m, k)));
    }
}

/// The second rule, where it is safe, keeps what the program does.
proof fn lemma_second_rule_kept(p: Seq<SpecLine>, i: int)
    requires
        second_rule_safe(p, i),
    ensures
        runs_kept(p, step_b(p, i)),
{
    assert forall|m: Machine, n: nat| m.pc == 0 implies #[trigger] run_matched(p, step_b(p, i), m, n) by {
        lemma_second_rule_keeps_runs(p, i, m, n);
        assert(Machine { pc: shifted(m.pc, i), ..m } == m);
        let k = choose|k: nat|
            k <= n && {
                let r = run(p, m, n);
                let s = #[trigger] run(step_b(p, i), Machine { pc: shifted(m.pc, i), ..m }, k);
                &&& r.output == s.output
                &&& r.input == s.input
                &&& r.acc == s.acc
                &&& r.mem == s.mem
                &&& r.halted == s.halted
            };
        assert(same_values(run(p, m, n), run(step_b(p, i), m, k)));
    }
}

/// Optimising keeps what the program does, wherever each rewrite it makes
/// is safe (`optimise_safe`): every run of the program from its first line
/// is matched by a run of the optimised program from its first line, in no
/// more steps, with the same accumulator, data, input left and output, and
/// the same answer to whether it stopped. `Optimiser::optimise` on an
/// optimiser that `Optimiser::new` made gives `optimise_from(lines, 0)`.
pub proof fn lemma_optimise_keeps_runs(lines: Seq<SpecLine>, i: int)
    requires
        optimise_safe(lines, i),
        optimise_from(lines, i) is Some,
    ensures
        runs_kept(lines, optimise_from(lines, i).unwrap()),
    decreases 2 * lines.len() - i,
{
    if lines.len() == 0 || i < 0 || i >= lines.len() - 1 || (a_applies(lines, i) && i == 0) {
        lemma_runs_kept_refl(lines);
    } else {
        let (l1, i1) = step_a(lines, i);
        if a_applies(lines, i) {
            lemma_first_rule_kept(lines, i);
        } else {
            lemma_runs_kept_refl(lines);
        }
        let l2 = step_b(l1, i1);
        if b_applies(l1, i1) {
            lemma_second_rule_kept(l1, i1);
        } else {
            lemma_runs_kept_refl(l1);
        }
        lemma_runs_kept_trans(lines, l1, l2);
        if 2 * l2.len() - (i1 + 1) < 2 * lines.len() - i && 0 <= 2 * l2.len() - (i1 + 1) {
            lemma_optimise_keeps_runs(l2, i1 + 1);
            lemma_runs_kept_trans(lines, l2, optimise_from(l2, i1 + 1).unwrap());
        }
    }
}

} // verus!
