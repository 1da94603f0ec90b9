//! The compiler to the Little Man Computer: each expression leaves its value
//! in the accumulator; variables, literals and temporaries are data words
//! appended after the code.
use vstd::prelude::*;
use std::collections::VecDeque;
use crate::ast::{
    AssignStatement, BlockStatement, Expression, ExpressionStatement, FunctionCallExpression,
    Identifier, IfStatement, InfixExpression, PrefixExpression, ProgramRoot, SpecExpression,
    SpecStatement, Statement, WhileStatement,
};
use crate::lmc::{
    lemma_run_split, lemma_target, names_line, run, step, target, Instruction, Machine, Program,
    SpecInstruction, SpecLine,
};
use crate::pretty_print::{decimal, natural_digits, natural_string, decimal_string};
use crate::text::{push_str, str_eq};
use crate::token::TokenType;
use crate::type_checker::NameSet;

verus! {

/// What the compiler has done so far.
#[verifier::ext_equal]
pub struct CompilerState {
    /// The code.
    pub program: Seq<SpecLine>,
    /// The names of the data words.
    pub variables: Set<Seq<char>>,
    /// The data words.
    pub dat: Seq<SpecLine>,
    /// How many temporaries are in use.
    pub temp_count: nat,
    /// How many labels were made.
    pub label_count: nat,
    /// The labels that the next instruction is to carry.
    pub next_label: Seq<Seq<char>>,
}

/// The branches that chain the pending labels `nl` to the last of them.
pub open spec fn chain_lines(nl: Seq<Seq<char>>) -> Seq<SpecLine> {
    Seq::new(
        (nl.len() - 1) as nat,
        |k: int| SpecLine { label: Some(nl[k]), inst: SpecInstruction::Bra(nl[k + 1]) },
    )
}

/// Appends `inst`, carrying the pending labels: when there are several, each
/// but the last gets a branch to the next.
pub open spec fn emit(st: CompilerState, inst: SpecInstruction) -> CompilerState {
    let nl = st.next_label;
    let (chain, label) = if nl.len() == 0 {
        (Seq::<SpecLine>::empty(), None::<Seq<char>>)
    } else {
        (chain_lines(nl), Some(nl.last()))
    };
    CompilerState {
        program: st.program + chain + seq![SpecLine { label, inst }],
        next_label: Seq::empty(),
        ..st
    }
}

/// Makes `l` one of the labels that the next instruction carries.
pub open spec fn with_label(st: CompilerState, l: Seq<char>) -> CompilerState {
    CompilerState { next_label: st.next_label.push(l), ..st }
}

/// Declares the data word `name` holding `v`, unless it is already declared.
pub open spec fn declare(st: CompilerState, name: Seq<char>, v: u16) -> CompilerState {
    if st.variables.contains(name) {
        st
    } else {
        CompilerState {
            dat: st.dat.push(
                SpecLine {
                    label: Some(name),
                    inst: SpecInstruction::Dat(decimal(v as int), v),
                },
            ),
            variables: st.variables.insert(name),
            ..st
        }
    }
}

/// The name of the temporary number `n`.
pub open spec fn temp_name(n: nat) -> Seq<char> {
    "temp_"@ + natural_digits(n)
}

/// The name of the data word of the literal `v`.
pub open spec fn literal_name(v: u16) -> Seq<char> {
    "literal_"@ + decimal(v as int)
}

/// The name of the data word of the variable `name`.
pub open spec fn variable_name(name: Seq<char>) -> Seq<char> {
    "variable_"@ + name
}

/// The label number `n`.
pub open spec fn plain_label(n: nat) -> Seq<char> {
    "label_"@ + natural_digits(n)
}

/// The label `hint` of the group `name` number `n`.
pub open spec fn hinted_label(name: Seq<char>, hint: Seq<char>, n: nat) -> Seq<char> {
    "label_"@ + name + seq!['_'] + hint + seq!['_'] + natural_digits(n)
}

/// Takes a temporary: its name, declared; `None` when the count overflows.
pub open spec fn take_temp(st: CompilerState) -> Option<(CompilerState, Seq<char>)> {
    if st.temp_count + 1 > usize::MAX {
        None
    } else {
        let name = temp_name(st.temp_count);
        Some((CompilerState { temp_count: st.temp_count + 1, ..declare(st, name, 0) }, name))
    }
}

/// Gives back the last temporary taken; `None` when none is taken.
pub open spec fn release_temp(st: CompilerState) -> Option<CompilerState> {
    if st.temp_count == 0 {
        None
    } else {
        Some(CompilerState { temp_count: (st.temp_count - 1) as nat, ..st })
    }
}

/// Takes the next label number; `None` when the count overflows.
pub open spec fn take_label(st: CompilerState) -> Option<(CompilerState, nat)> {
    if st.label_count + 1 > usize::MAX {
        None
    } else {
        Some((CompilerState { label_count: st.label_count + 1, ..st }, st.label_count))
    }
}

/// The data word of the literal `v`, declared.
pub open spec fn with_literal(st: CompilerState, v: u16) -> CompilerState {
    declare(st, literal_name(v), v)
}

/// The operators whose code the compiler writes after the operands.
pub open spec fn compiles_infix(tt: TokenType) -> bool {
    match tt {
        TokenType::Plus | TokenType::Minus | TokenType::Multiply | TokenType::Equal
        | TokenType::NotEqual | TokenType::Greater | TokenType::GreaterEqual | TokenType::Lesser
        | TokenType::LesserEqual => true,
        _ => false,
    }
}

/// The name of the group of labels of a comparison.
pub open spec fn comparison_name(tt: TokenType) -> Seq<char> {
    match tt {
        TokenType::Equal | TokenType::NotEqual => "equal"@,
        TokenType::Greater => "greater"@,
        TokenType::GreaterEqual => "greater_equal"@,
        TokenType::Lesser => "lesser"@,
        _ => "lesser_equal"@,
    }
}

/// The code of a comparison, the left operand in the accumulator and the right
/// one in `t`; `zero` and `one` are the literals, `n` the number of its labels.
pub open spec fn comparison_code(
    st: CompilerState,
    tt: TokenType,
    t: Seq<char>,
    zero: Seq<char>,
    one: Seq<char>,
    n: nat,
) -> CompilerState {
    let name = comparison_name(tt);
    let l_true = hinted_label(name, "true"@, n);
    let l_false = hinted_label(name, "false"@, n);
    let l_continue = hinted_label(name, "continue"@, n);
    let s1 = emit(st, SpecInstruction::Sub(t));
    match tt {
        TokenType::Equal | TokenType::NotEqual => {
            let (first, second) = if tt == TokenType::Equal {
                (zero, one)
            } else {
                (one, zero)
            };
            let s2 = emit(emit(s1, SpecInstruction::Brz(l_true)), SpecInstruction::Brp(l_false));
            let s3 = emit(emit(with_label(s2, l_false), SpecInstruction::Lda(first)), SpecInstruction::Bra(l_continue));
            with_label(emit(with_label(s3, l_true), SpecInstruction::Lda(second)), l_continue)
        },
        TokenType::Greater => {
            let s2 = emit(emit(s1, SpecInstruction::Brz(l_false)), SpecInstruction::Brp(l_true));
            let s3 = emit(emit(with_label(s2, l_false), SpecInstruction::Lda(zero)), SpecInstruction::Bra(l_continue));
            with_label(emit(with_label(s3, l_true), SpecInstruction::Lda(one)), l_continue)
        },
        TokenType::GreaterEqual => {
            let s2 = emit(s1, SpecInstruction::Brp(l_true));
            let s3 = emit(emit(with_label(s2, l_false), SpecInstruction::Lda(zero)), SpecInstruction::Bra(l_continue));
            with_label(emit(with_label(s3, l_true), SpecInstruction::Lda(one)), l_continue)
        },
        TokenType::Lesser => {
            let s2 = emit(s1, SpecInstruction::Brp(l_false));
            let s3 = emit(emit(with_label(s2, l_true), SpecInstruction::Lda(one)), SpecInstruction::Bra(l_continue));
            with_label(emit(with_label(s3, l_false), SpecInstruction::Lda(zero)), l_continue)
        },
        _ => {
            let s2 = emit(emit(s1, SpecInstruction::Brz(l_true)), SpecInstruction::Brp(l_false));
            let s3 = emit(emit(with_label(s2, l_true), SpecInstruction::Lda(one)), SpecInstruction::Bra(l_continue));
            with_label(emit(with_label(s3, l_false), SpecInstruction::Lda(zero)), l_continue)
        },
    }
}

/// The code of a multiplication by repeated addition, the left operand in the
/// accumulator and the right one in `t`.
pub open spec fn multiplication_code(st: CompilerState, t: Seq<char>) -> Option<CompilerState> {
    let s0 = with_literal(with_literal(st, 0), 1);
    let zero = literal_name(0);
    let one = literal_name(1);
    match take_temp(s0) {
        None => None,
        Some((s1, count)) => match take_temp(s1) {
            None => None,
            Some((s2, result)) => match take_label(s2) {
                None => None,
                Some((s3, n)) => {
                    let name = "multiplication"@;
                    let while_start = hinted_label(name, "while_start"@, n);
                    let comp_true = hinted_label(name, "comp_true"@, n);
                    let comp_false = hinted_label(name, "comp_false"@, n);
                    let comp_done = hinted_label(name, "comp_done"@, n);
                    let finish = hinted_label(name, "finish"@, n);
                    let a = emit(emit(emit(s3, SpecInstruction::Sta(count)), SpecInstruction::Lda(zero)), SpecInstruction::Sta(result));
                    let b = emit(emit(emit(with_label(a, while_start), SpecInstruction::Lda(count)), SpecInstruction::Brz(comp_false)), SpecInstruction::Brp(comp_true));
                    let c = emit(emit(with_label(b, comp_false), SpecInstruction::Lda(zero)), SpecInstruction::Bra(comp_done));
                    let d = emit(with_label(emit(with_label(c, comp_true), SpecInstruction::Lda(one)), comp_done), SpecInstruction::Brz(finish));
                    let e = emit(emit(emit(d, SpecInstruction::Lda(result)), SpecInstruction::Add(t)), SpecInstruction::Sta(result));
                    let f = emit(emit(emit(e, SpecInstruction::Lda(count)), SpecInstruction::Sub(one)), SpecInstruction::Sta(count));
                    let g = emit(with_label(emit(f, SpecInstruction::Bra(while_start)), finish), SpecInstruction::Lda(result));
                    match release_temp(g) {
                        None => None,
                        Some(h) => release_temp(h),
                    }
                },
            },
        },
    }
}

/// The code after the operands of an infix operation: the left one in the
/// accumulator and the right one in `t`.
pub open spec fn infix_code(st: CompilerState, tt: TokenType, t: Seq<char>) -> Option<CompilerState> {
    match tt {
        TokenType::Plus => Some(emit(st, SpecInstruction::Add(t))),
        TokenType::Minus => Some(emit(st, SpecInstruction::Sub(t))),
        TokenType::Multiply => multiplication_code(st, t),
        _ => {
            let s0 = with_literal(with_literal(st, 0), 1);
            match take_label(s0) {
                None => None,
                Some((s1, n)) => Some(comparison_code(s1, tt, t, literal_name(0), literal_name(1), n)),
            }
        },
    }
}

/// What compiling the expression `e` gives; `None` where the compiler stops
/// (a string, a negation, an operator it has no code for, an unknown variable
/// or function, `print` without argument, a count that overflows).
pub open spec fn compile_expression(st: CompilerState, e: SpecExpression) -> Option<CompilerState>
    decreases e,
{
    match e {
        SpecExpression::Identifier(i) => {
            let name = variable_name(i.value);
            if st.variables.contains(name) {
                Some(emit(st, SpecInstruction::Lda(name)))
            } else {
                None
            }
        },
        SpecExpression::Integer(v, _) => {
            let lit = v as u16;
            Some(emit(with_literal(st, lit), SpecInstruction::Lda(literal_name(lit))))
        },
        SpecExpression::Boolean(b, _) => {
            let lit: u16 = if b {
                1
            } else {
                0
            };
            Some(emit(with_literal(st, lit), SpecInstruction::Lda(literal_name(lit))))
        },
        SpecExpression::Str(_, _) => None,
        SpecExpression::Prefix(op, right) => if op.token_type == TokenType::Plus {
            compile_expression(st, *right)
        } else if op.token_type == TokenType::Not {
            let s0 = with_literal(with_literal(st, 0), 1);
            match take_label(s0) {
                None => None,
                Some((s1, n)) => {
                    let l_true = hinted_label("not"@, "true"@, n);
                    let l_continue = hinted_label("not"@, "continue"@, n);
                    match compile_expression(s1, *right) {
                        None => None,
                        Some(s2) => {
                            let s3 = emit(emit(emit(s2, SpecInstruction::Brp(l_true)), SpecInstruction::Lda(literal_name(1))), SpecInstruction::Bra(l_continue));
                            Some(with_label(emit(with_label(s3, l_true), SpecInstruction::Lda(literal_name(0))), l_continue))
                        },
                    }
                },
            }
        } else {
            None
        },
        SpecExpression::Infix(left, op, right) => if compiles_infix(op.token_type) {
            match compile_expression(st, *right) {
                None => None,
                Some(s1) => match take_temp(s1) {
                    None => None,
                    Some((s2, t)) => match compile_expression(emit(s2, SpecInstruction::Sta(t)), *left) {
                        None => None,
                        Some(s3) => match infix_code(s3, op.token_type, t) {
                            None => None,
                            Some(s4) => release_temp(s4),
                        },
                    },
                },
            }
        } else {
            None
        },
        SpecExpression::Call(id, args) => if id.value == "print"@ && args.len() > 0 {
            match compile_expression(st, args[0]) {
                None => None,
                Some(s1) => Some(emit(s1, SpecInstruction::Out)),
            }
        } else {
            None
        },
    }
}

/// What compiling the statement `s` gives; `None` where the compiler stops
/// (a `return`, a procedure, a `for` loop, or an expression it stops at).
pub open spec fn compile_statement(st: CompilerState, s: SpecStatement) -> Option<CompilerState>
    decreases s,
{
    match s {
        SpecStatement::Assign(v, e) => match compile_expression(st, e) {
            None => None,
            Some(s1) => {
                let name = variable_name(v.value);
                Some(emit(declare(s1, name, 0), SpecInstruction::Sta(name)))
            },
        },
        SpecStatement::Expression(e) => compile_expression(st, e),
        SpecStatement::Block(b) => compile_statements(st, b),
        SpecStatement::If(c, t, e) => match take_label(st) {
            None => None,
            Some((s1, n)) => {
                let consequence = plain_label(n);
                match compile_expression(s1, c) {
                    None => None,
                    Some(s2) => match compile_statements(emit(s2, SpecInstruction::Brp(consequence)), e) {
                        None => None,
                        Some(s3) => compile_statements(
                            with_label(emit(s3, SpecInstruction::Bra(consequence)), consequence),
                            t,
                        ),
                    },
                }
            },
        },
        SpecStatement::While(c, b) => match take_label(st) {
            None => None,
            Some((s1, n)) => {
                let cond = hinted_label("while"@, "cond"@, n);
                let end = hinted_label("while"@, "end"@, n);
                match compile_expression(with_label(s1, cond), c) {
                    None => None,
                    Some(s2) => match compile_statements(emit(s2, SpecInstruction::Brz(end)), b) {
                        None => None,
                        Some(s3) => Some(with_label(emit(s3, SpecInstruction::Bra(cond)), end)),
                    },
                }
            },
        },
        _ => None,
    }
}

/// What compiling the statements `b` in order gives.
pub open spec fn compile_statements(st: CompilerState, b: Seq<SpecStatement>) -> Option<CompilerState>
    decreases b,
{
    if b.len() == 0 {
        Some(st)
    } else {
        match compile_statements(st, b.drop_last()) {
            None => None,
            Some(s1) => compile_statement(s1, b.last()),
        }
    }
}

/// The state of a compiler that has done nothing.
pub open spec fn initial_state() -> CompilerState {
    CompilerState {
        program: Seq::empty(),
        variables: Set::empty(),
        dat: Seq::empty(),
        temp_count: 0,
        label_count: 0,
        next_label: Seq::empty(),
    }
}

/// What compiling a program gives: its code, `HLT`, then the data words;
/// `None` where the compiler stops.
pub open spec fn compile_program(b: Seq<SpecStatement>) -> Option<Seq<SpecLine>> {
    match compile_statements(initial_state(), b) {
        None => None,
        Some(st) => {
            let end = emit(st, SpecInstruction::Hlt);
            Some(end.program + end.dat)
        },
    }
}

/// The models of pending labels.
pub open spec fn labels_model(v: Seq<String>) -> Seq<Seq<char>> {
    v.map_values(|s: String| s@)
}

/// A group of labels that share a name and a number.
struct LabelGenerator {
    name: String,
    label_count: usize,
}

impl LabelGenerator {
    /// The label `hint` of this group.
    fn get_hinted_label(&self, hint: &str) -> (r: String)
        ensures
            r@ == hinted_label(self.name@, hint@, self.label_count as nat),
    {
        let mut r = String::new();
        push_str(&mut r, "label_");
        push_str(&mut r, self.name.as_str());
        crate::text::push_char(&mut r, '_');
        push_str(&mut r, hint);
        crate::text::push_char(&mut r, '_');
        let n = natural_string(self.label_count as u64);
        push_str(&mut r, n.as_str());
        assert(r@ =~= hinted_label(self.name@, hint@, self.label_count as nat));
        r
    }
}

/// The compiler: the code so far, the data words and their names, the
/// temporaries in use, the labels made, and the labels that the next
/// instruction is to carry.
pub struct Compiler {
    program: Program,
    variables: NameSet,
    variables_dat: Program,
    temp_count: usize,
    label_count: usize,
    next_label: VecDeque<String>,
}

impl Compiler {
    pub closed spec fn state(self) -> CompilerState {
        CompilerState {
            program: self.program.model(),
            variables: self.variables.set(),
            dat: self.variables_dat.model(),
            temp_count: self.temp_count as nat,
            label_count: self.label_count as nat,
            next_label: labels_model(self.next_label@),
        }
    }

    pub closed spec fn wf(self) -> bool {
        self.program.wf() && self.variables_dat.wf()
    }

    /// Appends `inst`, carrying the pending labels.
    fn push_instruction(&mut self, inst: Instruction)
        requires
            old(self).wf(),
            inst.wf(),
        ensures
            final(self).wf(),
            final(self).state() == emit(old(self).state(), inst.model()),
    {
        let ghost nl = labels_model(self.next_label@);
        let final_label = if self.next_label.len() == 0 {
            None
        } else if self.next_label.len() == 1 {
            assert(nl[0] == old(self).next_label@[0]@);
            let l = self.next_label.pop_front();
            assert(self.next_label@ =~= Seq::<String>::empty());
            assert(chain_lines(nl) =~= Seq::<SpecLine>::empty());
            l
        } else {
            let mut current = self.next_label.pop_front().unwrap();
            let ghost start = self.program.model();
            let ghost mut k: int = 0;
            assert(chain_lines(nl.take(1)) =~= Seq::<SpecLine>::empty());
            assert(labels_model(self.next_label@) =~= nl.subrange(1, nl.len() as int));
            while self.next_label.len() > 0
                invariant
                    0 <= k < nl.len(),
                    current@ == nl[k],
                    labels_model(self.next_label@) == nl.subrange(k + 1, nl.len() as int),
                    self.program.wf(),
                    self.program.model() == start + chain_lines(nl.take(k + 1)),
                    start == old(self).program.model(),
                    nl == labels_model(old(self).next_label@),
                    self.variables_dat == old(self).variables_dat,
                    self.variables == old(self).variables,
                    self.temp_count == old(self).temp_count,
                    self.label_count == old(self).label_count,
                    old(self).wf(),
                decreases self.next_label.len(),
            {
                let ghost deque = self.next_label@;
                assert(deque.len() > 0);
                assert(labels_model(deque).len() == deque.len());
                assert(k + 1 < nl.len());
                assert(labels_model(deque)[0] == deque[0]@);
                assert(nl.subrange(k + 1, nl.len() as int)[0] == nl[k + 1]);
                let next = self.next_label.pop_front().unwrap();
                let ghost before = self.program.model();
                self.program.push(Some(current), Instruction::Bra(next.clone()));
                proof {
                    assert(next@ == nl[k + 1]);
                    assert(chain_lines(nl.take(k + 2)) =~= chain_lines(nl.take(k + 1)).push(
                        SpecLine { label: Some(nl[k]), inst: SpecInstruction::Bra(nl[k + 1]) },
                    ));
                    assert forall|j: int| 0 <= j < labels_model(self.next_label@).len() implies #[trigger] labels_model(self.next_label@)[j]
                        == nl.subrange(k + 2, nl.len() as int)[j] by {
                        assert(self.next_label@[j] == deque[j + 1]);
                        assert(labels_model(deque)[j + 1] == deque[j + 1]@);
                    }
                    assert(labels_model(self.next_label@) =~= nl.subrange(k + 2, nl.len() as int));
                    k = k + 1;
                }
                current = next;
            }
            assert(k + 1 == nl.len());
            assert(nl.take(k + 1) =~= nl);
            assert(current@ == nl.last());
            Some(current)
        };
        let ghost before = self.program.model();
        self.program.push(final_label, inst);
        assert(labels_model(self.next_label@) =~= Seq::<Seq<char>>::empty());
        assert(self.state() =~= emit(old(self).state(), inst.model()));
    }

    fn push_add(&mut self, operand: &str)
        requires
            old(self).wf(),
        ensures
            final(self).wf(),
            final(self).state() == emit(old(self).state(), SpecInstruction::Add(operand@)),
    {
        self.push_instruction(Instruction::Add(crate::text::string_from_str(operand)));
    }

    fn push_sub(&mut self, operand: &str)
        requires
            old(self).wf(),
        ensures
            final(self).wf(),
            final(self).state() == emit(old(self).state(), SpecInstruction::Sub(operand@)),
    {
        self.push_instruction(Instruction::Sub(crate::text::string_from_str(operand)));
    }

    fn push_sta(&mut self, operand: &str)
        requires
            old(self).wf(),
        ensures
            final(self).wf(),
            final(self).state() == emit(old(self).state(), SpecInstruction::Sta(operand@)),
    {
        self.push_instruction(Instruction::Sta(crate::text::string_from_str(operand)));
    }

    fn push_lda(&mut self, operand: &str)
        requires
            old(self).wf(),
        ensures
            final(self).wf(),
            final(self).state() == emit(old(self).state(), SpecInstruction::Lda(operand@)),
    {
        self.push_instruction(Instruction::Lda(crate::text::string_from_str(operand)));
    }

    fn push_bra(&mut self, operand: &str)
        requires
            old(self).wf(),
        ensures
            final(self).wf(),
            final(self).state() == emit(old(self).state(), SpecInstruction::Bra(operand@)),
    {
        self.push_instruction(Instruction::Bra(crate::text::string_from_str(operand)));
    }

    fn push_brz(&mut self, operand: &str)
        requires
            old(self).wf(),
        ensures
            final(self).wf(),
            final(self).state() == emit(old(self).state(), SpecInstruction::Brz(operand@)),
    {
        self.push_instruction(Instruction::Brz(crate::text::string_from_str(operand)));
    }

    fn push_brp(&mut self, operand: &str)
        requires
            old(self).wf(),
        ensures
            final(self).wf(),
            final(self).state() == emit(old(self).state(), SpecInstruction::Brp(operand@)),
    {
        self.push_instruction(Instruction::Brp(crate::text::string_from_str(operand)));
    }

    fn push_inp(&mut self)
        requires
            old(self).wf(),
        ensures
            final(self).wf(),
            final(self).state() == emit(old(self).state(), SpecInstruction::Inp),
    {
        self.push_instruction(Instruction::Inp);
    }

    fn push_out(&mut self)
        requires
            old(self).wf(),
        ensures
            final(self).wf(),
            final(self).state() == emit(old(self).state(), SpecInstruction::Out),
    {
        self.push_instruction(Instruction::Out);
    }

    fn push_hlt(&mut self)
        requires
            old(self).wf(),
        ensures
            final(self).wf(),
            final(self).state() == emit(old(self).state(), SpecInstruction::Hlt),
    {
        self.push_instruction(Instruction::Hlt);
    }

    /// Makes `label` one of the labels that the next instruction carries.
    fn push_label(&mut self, label: String)
        ensures
            final(self).wf() == old(self).wf(),
            final(self).state() == with_label(old(self).state(), label@),
    {
        self.next_label.push_back(label);
        assert(labels_model(self.next_label@) =~= labels_model(old(self).next_label@).push(label@));
    }

    /// Declares the data word `name` holding `v`, unless it is already declared.
    fn declare(&mut self, name: &String, v: u16)
        requires
            old(self).wf(),
        ensures
            final(self).wf(),
            final(self).state() == declare(old(self).state(), name@, v),
    {
        if !self.variables.contains(name) {
            self.variables_dat.push_dat(Some(name.clone()), v);
            self.variables.insert(name.clone());
        }
    }

    /// Takes a temporary and gives its name; `None` when the count would
    /// overflow.
    fn get_temp(&mut self) -> (r: Option<String>)
        requires
            old(self).wf(),
        ensures
            final(self).wf(),
            match r {
                Some(name) => take_temp(old(self).state()) == Some((final(self).state(), name@)),
                None => take_temp(old(self).state()) is None,
            },
    {
        if self.temp_count == usize::MAX {
            return None;
        }
        let mut name = String::new();
        push_str(&mut name, "temp_");
        let n = natural_string(self.temp_count as u64);
        push_str(&mut name, n.as_str());
        assert(name@ =~= temp_name(self.temp_count as nat));
        self.declare(&name, 0);
        self.temp_count = self.temp_count + 1;
        Some(name)
    }

    /// Gives back the last temporary taken; `false` when none is taken.
    fn release_temp(&mut self) -> (r: bool)
        ensures
            final(self).wf() == old(self).wf(),
            r == release_temp(old(self).state()) is Some,
            r ==> final(self).state() == release_temp(old(self).state()).unwrap(),
    {
        if self.temp_count == 0 {
            return false;
        }
        self.temp_count = self.temp_count - 1;
        true
    }

    /// Takes a plain label; `None` when the count would overflow.
    fn get_label(&mut self) -> (r: Option<String>)
        ensures
            final(self).wf() == old(self).wf(),
            match r {
                Some(l) => take_label(old(self).state()) is Some && final(self).state()
                    == take_label(old(self).state()).unwrap().0 && l@ == plain_label(
                    take_label(old(self).state()).unwrap().1,
                ),
                None => take_label(old(self).state()) is None,
            },
    {
        if self.label_count == usize::MAX {
            return None;
        }
        let mut result = String::new();
        push_str(&mut result, "label_");
        let n = natural_string(self.label_count as u64);
        push_str(&mut result, n.as_str());
        assert(result@ =~= plain_label(self.label_count as nat));
        self.label_count = self.label_count + 1;
        Some(result)
    }

    /// Takes a label number for a group of labels named `name`; `None` when
    /// the count would overflow.
    fn get_hinted_labels(&mut self, name: &str) -> (r: Option<LabelGenerator>)
        ensures
            final(self).wf() == old(self).wf(),
            match r {
                Some(g) => take_label(old(self).state()) is Some && final(self).state()
                    == take_label(old(self).state()).unwrap().0 && g.name@ == name@
                    && g.label_count == take_label(old(self).state()).unwrap().1,
                None => take_label(old(self).state()) is None,
            },
    {
        if self.label_count == usize::MAX {
            return None;
        }
        let generator = LabelGenerator {
            name: crate::text::string_from_str(name),
            label_count: self.label_count,
        };
        self.label_count = self.label_count + 1;
        Some(generator)
    }

    /// The data word of the literal `literal`, declared.
    fn get_literal(&mut self, literal: u16) -> (r: String)
        requires
            old(self).wf(),
        ensures
            final(self).wf(),
            final(self).state() == with_literal(old(self).state(), literal),
            r@ == literal_name(literal),
    {
        let mut string = String::new();
        push_str(&mut string, "literal_");
        let n = decimal_string(literal as i64);
        push_str(&mut string, n.as_str());
        assert(string@ =~= literal_name(literal));
        self.declare(&string, literal);
        string
    }

    /// The data word of the variable `name`, declared.
    fn new_variable(&mut self, name: String) -> (r: String)
        requires
            old(self).wf(),
        ensures
            final(self).wf(),
            final(self).state() == declare(old(self).state(), variable_name(name@), 0),
            r@ == variable_name(name@),
    {
        let mut full = String::new();
        push_str(&mut full, "variable_");
        push_str(&mut full, name.as_str());
        assert(full@ =~= variable_name(name@));
        self.declare(&full, 0);
        full
    }
}

impl Compiler {
    /// Compiles a program: the code of its statements, `HLT`, then the data
    /// words; `None` where the compiler stops (see `compile_expression` and
    /// `compile_statement`).
    pub fn compile_checked(program_root: ProgramRoot) -> (r: Option<Program>)
        ensures
            match r {
                Some(p) => p.wf() && compile_program(program_root.model()) == Some(p.model()),
                None => compile_program(program_root.model()) is None,
            },
    {
        let mut compiler = Compiler {
            program: Program::new(),
            variables: NameSet::new(),
            variables_dat: Program::new(),
            temp_count: 0,
            label_count: 0,
            next_label: VecDeque::new(),
        };
        assert(compiler.state() =~= initial_state());
        let ghost b = program_root.model();
        let mut i: usize = 0;
        assert(b.take(0) =~= Seq::<SpecStatement>::empty());
        while i < program_root.0.body.len()
            invariant
                i <= program_root.0.body.len(),
                b == program_root.model(),
                compiler.wf(),
                compile_statements(initial_state(), b.take(i as int)) == Some(compiler.state()),
            decreases program_root.0.body.len() - i,
        {
            assert(b.take(i + 1).drop_last() =~= b.take(i as int));
            if !compiler.visit_statement(&program_root.0.body[i]) {
                proof {
                    lemma_compile_stops(initial_state(), b, i + 1);
                }
                return None;
            }
            i = i + 1;
        }
        assert(b.take(program_root.0.body.len() as int) =~= b);
        compiler.push_hlt();
        let Compiler { program, variables: _, variables_dat, temp_count: _, label_count: _, next_label: _ } =
            compiler;
        Some(program.merge(variables_dat))
    }

    /// Compiles a program: the code of its statements, `HLT`, then the data
    /// words.
    pub fn compile(program_root: ProgramRoot) -> (r: Program)
        requires
            compile_program(program_root.model()) is Some,
        ensures
            r.wf(),
            r.model() == compile_program(program_root.model()).unwrap(),
    {
        match Self::compile_checked(program_root) {
            Some(p) => p,
            None => {
                proof {
                    assert(false);
                }
                Program::new()
            },
        }
    }

    fn visit_statement(&mut self, statement: &Statement) -> (r: bool)
        requires
            old(self).wf(),
        ensures
            final(self).wf(),
            r == compile_statement(old(self).state(), statement.model()) is Some,
            r ==> final(self).state() == compile_statement(old(self).state(), statement.model()).unwrap(),
        decreases statement,
    {
        match statement {
            Statement::Assign(stmt) => self.visit_assign(stmt),
            Statement::Expression(expr) => self.visit_expression(&expr.expression),
            Statement::Block(stmt) => self.visit_block(stmt),
            Statement::If(stmt) => self.visit_if(stmt),
            Statement::While(stmt) => self.visit_while(stmt),
            _ => false,
        }
    }

    fn visit_assign(&mut self, stmt: &AssignStatement) -> (r: bool)
        requires
            old(self).wf(),
        ensures
            final(self).wf(),
            r == compile_statement(old(self).state(), Statement::Assign(Box::new(*stmt)).model()) is Some,
            r ==> final(self).state() == compile_statement(old(self).state(), Statement::Assign(Box::new(*stmt)).model()).unwrap(),
        decreases stmt,
    {
        if !self.visit_expression(&stmt.value) {
            return false;
        }
        let name = self.new_variable(stmt.variable.value.clone());
        self.push_sta(name.as_str());
        true
    }

    fn visit_block(&mut self, block: &BlockStatement) -> (r: bool)
        requires
            old(self).wf(),
        ensures
            final(self).wf(),
            r == compile_statements(old(self).state(), block.model()) is Some,
            r ==> final(self).state() == compile_statements(old(self).state(), block.model()).unwrap(),
        decreases block,
    {
        let ghost b = block.model();
        let ghost st = self.state();
        let mut i: usize = 0;
        assert(b.take(0) =~= Seq::<SpecStatement>::empty());
        while i < block.body.len()
            invariant
                i <= block.body.len(),
                b == block.model(),
                st == old(self).state(),
                self.wf(),
                compile_statements(st, b.take(i as int)) == Some(self.state()),
            decreases block.body.len() - i,
        {
            assert(b.take(i + 1).drop_last() =~= b.take(i as int));
            if !self.visit_statement(&block.body[i]) {
                proof {
                    lemma_compile_stops(st, b, i + 1);
                }
                return false;
            }
            i = i + 1;
        }
        assert(b.take(block.body.len() as int) =~= b);
        true
    }

    fn visit_if(&mut self, stmt: &IfStatement) -> (r: bool)
        requires
            old(self).wf(),
        ensures
            final(self).wf(),
            r == compile_statement(old(self).state(), Statement::If(Box::new(*stmt)).model()) is Some,
            r ==> final(self).state() == compile_statement(old(self).state(), Statement::If(Box::new(*stmt)).model()).unwrap(),
        decreases stmt,
    {
        let consequence = match self.get_label() {
            Some(l) => l,
            None => {
                return false;
            },
        };
        if !self.visit_expression(&stmt.condition) {
            return false;
        }
        self.push_brp(consequence.as_str());
        if !self.visit_block(&stmt.alternitive) {
            return false;
        }
        self.push_bra(consequence.as_str());
        self.push_label(consequence);
        self.visit_block(&stmt.consequence)
    }

    fn visit_while(&mut self, stmt: &WhileStatement) -> (r: bool)
        requires
            old(self).wf(),
        ensures
            final(self).wf(),
            r == compile_statement(old(self).state(), Statement::While(Box::new(*stmt)).model()) is Some,
            r ==> final(self).state() == compile_statement(old(self).state(), Statement::While(Box::new(*stmt)).model()).unwrap(),
        decreases stmt,
    {
        let generator = match self.get_hinted_labels("while") {
            Some(g) => g,
            None => {
                return false;
            },
        };
        let cond = generator.get_hinted_label("cond");
        let end = generator.get_hinted_label("end");
        self.push_label(cond.clone());
        if !self.visit_expression(&stmt.condition) {
            return false;
        }
        self.push_brz(end.as_str());
        if !self.visit_block(&stmt.body) {
            return false;
        }
        self.push_bra(cond.as_str());
        self.push_label(end);
        true
    }

    fn visit_expression(&mut self, expression: &Expression) -> (r: bool)
        requires
            old(self).wf(),
        ensures
            final(self).wf(),
            r == compile_expression(old(self).state(), expression.model()) is Some,
            r ==> final(self).state() == compile_expression(old(self).state(), expression.model()).unwrap(),
        decreases expression, 2nat,
    {
        match expression {
            Expression::Identifier(ident) => self.visit_identifier(ident),
            Expression::IntegerLiteral(literal) => {
                let l = self.get_literal(literal.value as u16);
                self.push_lda(l.as_str());
                true
            },
            Expression::BooleanLiteral(literal) => {
                let l = self.get_literal(
                    if literal.value {
                        1
                    } else {
                        0
                    },
                );
                self.push_lda(l.as_str());
                true
            },
            Expression::StringLiteral(_) => false,
            Expression::Prefix(prefix) => self.visit_prefix(prefix),
            Expression::Infix(infix) => self.visit_infix(infix),
            Expression::FunctionCall(call) => self.visit_function_call(call),
        }
    }

    fn visit_identifier(&mut self, ident: &Identifier) -> (r: bool)
        requires
            old(self).wf(),
        ensures
            final(self).wf(),
            r == compile_expression(old(self).state(), SpecExpression::Identifier(ident@)) is Some,
            r ==> final(self).state() == compile_expression(old(self).state(), SpecExpression::Identifier(ident@)).unwrap(),
    {
        let mut name = String::new();
        push_str(&mut name, "variable_");
        push_str(&mut name, ident.value.as_str());
        assert(name@ =~= variable_name(ident.value@));
        if !self.variables.contains(&name) {
            return false;
        }
        self.push_lda(name.as_str());
        true
    }

    fn visit_prefix(&mut self, prefix: &PrefixExpression) -> (r: bool)
        requires
            old(self).wf(),
        ensures
            final(self).wf(),
            r == compile_expression(old(self).state(), Expression::Prefix(Box::new(*prefix)).model()) is Some,
            r ==> final(self).state() == compile_expression(old(self).state(), Expression::Prefix(Box::new(*prefix)).model()).unwrap(),
        decreases prefix, 2nat,
    {
        match prefix.operator.token_type {
            TokenType::Plus => self.visit_expression(&prefix.right),
            TokenType::Not => self.visit_not(prefix),
            _ => false,
        }
    }

    fn visit_not(&mut self, prefix: &PrefixExpression) -> (r: bool)
        requires
            old(self).wf(),
            prefix.operator.token_type == TokenType::Not,
        ensures
            final(self).wf(),
            r == compile_expression(old(self).state(), Expression::Prefix(Box::new(*prefix)).model()) is Some,
            r ==> final(self).state() == compile_expression(old(self).state(), Expression::Prefix(Box::new(*prefix)).model()).unwrap(),
        decreases prefix, 1nat,
    {
        let zero = self.get_literal(0);
        let one = self.get_literal(1);
        let labels = match self.get_hinted_labels("not") {
            Some(g) => g,
            None => {
                return false;
            },
        };
        let l_true = labels.get_hinted_label("true");
        let l_continue = labels.get_hinted_label("continue");
        if !self.visit_expression(&prefix.right) {
            return false;
        }
        self.push_brp(l_true.as_str());
        self.push_lda(one.as_str());
        self.push_bra(l_continue.as_str());
        self.push_label(l_true);
        self.push_lda(zero.as_str());
        self.push_label(l_continue);
        true
    }

    fn visit_infix(&mut self, infix: &InfixExpression) -> (r: bool)
        requires
            old(self).wf(),
        ensures
            final(self).wf(),
            r == compile_expression(old(self).state(), Expression::Infix(Box::new(*infix)).model()) is Some,
            r ==> final(self).state() == compile_expression(old(self).state(), Expression::Infix(Box::new(*infix)).model()).unwrap(),
        decreases infix, 2nat,
    {
        let tt = infix.operator.token_type;
        if !(tt == TokenType::Plus || tt == TokenType::Minus || tt == TokenType::Multiply
            || tt == TokenType::Equal || tt == TokenType::NotEqual || tt == TokenType::Greater
            || tt == TokenType::GreaterEqual || tt == TokenType::Lesser || tt == TokenType::LesserEqual) {
            return false;
        }
        if !self.visit_expression(&infix.right) {
            return false;
        }
        let temp_rhs = match self.get_temp() {
            Some(t) => t,
            None => {
                return false;
            },
        };
        self.push_sta(temp_rhs.as_str());
        if !self.visit_expression(&infix.left) {
            return false;
        }
        if !self.operator_code(tt, &temp_rhs) {
            return false;
        }
        self.release_temp()
    }

    /// The code of an infix operator, the left operand in the accumulator and
    /// the right one in `temp_rhs`.
    fn operator_code(&mut self, tt: TokenType, temp_rhs: &String) -> (r: bool)
        requires
            old(self).wf(),
            compiles_infix(tt),
        ensures
            final(self).wf(),
            r == infix_code(old(self).state(), tt, temp_rhs@) is Some,
            r ==> final(self).state() == infix_code(old(self).state(), tt, temp_rhs@).unwrap(),
    {
        match tt {
            TokenType::Plus => {
                self.push_add(temp_rhs.as_str());
                true
            },
            TokenType::Minus => {
                self.push_sub(temp_rhs.as_str());
                true
            },
            TokenType::Multiply => self.visit_multiplication(temp_rhs),
            _ => self.comparison(tt, temp_rhs),
        }
    }

    /// The code of a comparison.
    fn comparison(&mut self, tt: TokenType, temp_rhs: &String) -> (r: bool)
        requires
            old(self).wf(),
            compiles_infix(tt),
            tt != TokenType::Plus && tt != TokenType::Minus && tt != TokenType::Multiply,
        ensures
            final(self).wf(),
            r == infix_code(old(self).state(), tt, temp_rhs@) is Some,
            r ==> final(self).state() == infix_code(old(self).state(), tt, temp_rhs@).unwrap(),
    {
        let zero = self.get_literal(0);
        let one = self.get_literal(1);
        let name = match tt {
            TokenType::Equal | TokenType::NotEqual => "equal",
            TokenType::Greater => "greater",
            TokenType::GreaterEqual => "greater_equal",
            TokenType::Lesser => "lesser",
            _ => "lesser_equal",
        };
        let generator = match self.get_hinted_labels(name) {
            Some(g) => g,
            None => {
                return false;
            },
        };
        let l_true = generator.get_hinted_label("true");
        let l_false = generator.get_hinted_label("false");
        let l_continue = generator.get_hinted_label("continue");
        self.push_sub(temp_rhs.as_str());
        match tt {
            TokenType::Equal | TokenType::NotEqual => {
                let (first, second) = if tt == TokenType::Equal {
                    (&zero, &one)
                } else {
                    (&one, &zero)
                };
                self.push_brz(l_true.as_str());
                self.push_brp(l_false.as_str());
                self.push_label(l_false);
                self.push_lda(first.as_str());
                self.push_bra(l_continue.as_str());
                self.push_label(l_true);
                self.push_lda(second.as_str());
                self.push_label(l_continue);
            },
            TokenType::Greater => {
                self.push_brz(l_false.as_str());
                self.push_brp(l_true.as_str());
                self.push_label(l_false);
                self.push_lda(zero.as_str());
                self.push_bra(l_continue.as_str());
                self.push_label(l_true);
                self.push_lda(one.as_str());
                self.push_label(l_continue);
            },
            TokenType::GreaterEqual => {
                self.push_brp(l_true.as_str());
                self.push_label(l_false);
                self.push_lda(zero.as_str());
                self.push_bra(l_continue.as_str());
                self.push_label(l_true);
                self.push_lda(one.as_str());
                self.push_label(l_continue);
            },
            TokenType::Lesser => {
                self.push_brp(l_false.as_str());
                self.push_label(l_true);
                self.push_lda(one.as_str());
                self.push_bra(l_continue.as_str());
                self.push_label(l_false);
                self.push_lda(zero.as_str());
                self.push_label(l_continue);
            },
            _ => {
                self.push_brz(l_true.as_str());
                self.push_brp(l_false.as_str());
                self.push_label(l_true);
                self.push_lda(one.as_str());
                self.push_bra(l_continue.as_str());
                self.push_label(l_false);
                self.push_lda(zero.as_str());
                self.push_label(l_continue);
            },
        }
        true
    }

    /// The code of a multiplication by repeated addition.
    fn visit_multiplication(&mut self, temp_rhs: &String) -> (r: bool)
        requires
            old(self).wf(),
        ensures
            final(self).wf(),
            r == multiplication_code(old(self).state(), temp_rhs@) is Some,
            r ==> final(self).state() == multiplication_code(old(self).state(), temp_rhs@).unwrap(),
    {
        let zero = self.get_literal(0);
        let one = self.get_literal(1);
        let count = match self.get_temp() {
            Some(t) => t,
            None => {
                return false;
            },
        };
        let result = match self.get_temp() {
            Some(t) => t,
            None => {
                return false;
            },
        };
        let labels = match self.get_hinted_labels("multiplication") {
            Some(g) => g,
            None => {
                return false;
            },
        };
        let while_start = labels.get_hinted_label("while_start");
        let comp_true = labels.get_hinted_label("comp_true");
        let comp_false = labels.get_hinted_label("comp_false");
        let comp_done = labels.get_hinted_label("comp_done");
        let finish = labels.get_hinted_label("finish");
        self.push_sta(count.as_str());
        self.push_lda(zero.as_str());
        self.push_sta(result.as_str());
        self.push_label(while_start.clone());
        self.push_lda(count.as_str());
        self.push_brz(comp_false.as_str());
        self.push_brp(comp_true.as_str());
        self.push_label(comp_false);
        self.push_lda(zero.as_str());
        self.push_bra(comp_done.as_str());
        self.push_label(comp_true);
        self.push_lda(one.as_str());
        self.push_label(comp_done);
        self.push_brz(finish.as_str());
        self.push_lda(result.as_str());
        self.push_add(temp_rhs.as_str());
        self.push_sta(result.as_str());
        self.push_lda(count.as_str());
        self.push_sub(one.as_str());
        self.push_sta(count.as_str());
        self.push_bra(while_start.as_str());
        self.push_label(finish);
        self.push_lda(result.as_str());
        if !self.release_temp() {
            return false;
        }
        self.release_temp()
    }

    fn visit_function_call(&mut self, call: &FunctionCallExpression) -> (r: bool)
        requires
            old(self).wf(),
        ensures
            final(self).wf(),
            r == compile_expression(old(self).state(), Expression::FunctionCall(Box::new(*call)).model()) is Some,
            r ==> final(self).state() == compile_expression(old(self).state(), Expression::FunctionCall(Box::new(*call)).model()).unwrap(),
        decreases call, 2nat,
    {
        if str_eq(call.identifier.value.as_str(), "print") && call.arguments.arguments.len() > 0 {
            if !self.visit_expression(&call.arguments.arguments[0]) {
                return false;
            }
            self.push_out();
            true
        } else {
            false
        }
    }
}

/// Once a statement stops the compiler, so do all the statements it is among.
pub proof fn lemma_compile_stops(st: CompilerState, b: Seq<SpecStatement>, i: int)
    requires
        0 <= i <= b.len(),
        compile_statements(st, b.take(i)) is None,
    ensures
        compile_statements(st, b) is None,
    decreases b.len() - i,
{
    if i < b.len() {
        assert(b.take(i + 1).drop_last() =~= b.take(i));
        lemma_compile_stops(st, b, i + 1);
    } else {
        assert(b.take(i) =~= b);
    }
}

/// The code after the operands of an infix operation gives back the
/// temporaries it takes.
pub proof fn lemma_infix_code_releases_temporaries(st: CompilerState, tt: TokenType, t: Seq<char>)
    ensures
        infix_code(st, tt, t) matches Some(s) ==> s.temp_count == st.temp_count,
{
}

/// Compiling an expression gives back every temporary it takes: the count of
/// temporaries in use is the same after it as before.
pub proof fn lemma_expression_releases_temporaries(st: CompilerState, e: SpecExpression)
    ensures
        compile_expression(st, e) matches Some(s) ==> s.temp_count == st.temp_count,
    decreases e,
{
    match e {
        SpecExpression::Prefix(op, right) => {
            lemma_expression_releases_temporaries(st, *right);
            let s0 = with_literal(with_literal(st, 0), 1);
            if let Some((s1, n)) = take_label(s0) {
                lemma_expression_releases_temporaries(s1, *right);
            }
        },
        SpecExpression::Infix(left, op, right) => {
            lemma_expression_releases_temporaries(st, *right);
            if let Some(s1) = compile_expression(st, *right) {
                if let Some((s2, t)) = take_temp(s1) {
                    let s2e = emit(s2, SpecInstruction::Sta(t));
                    lemma_expression_releases_temporaries(s2e, *left);
                    if let Some(s3) = compile_expression(s2e, *left) {
                        lemma_infix_code_releases_temporaries(s3, op.token_type, t);
                    }
                }
            }
        },
        SpecExpression::Call(id, args) => {
            if args.len() > 0 {
                lemma_expression_releases_temporaries(st, args[0]);
            }
        },
        _ => {},
    }
}

/// Each data word is declared once: the data words have distinct labels, each
/// of them a declared name.
pub open spec fn data_declared_once(st: CompilerState) -> bool {
    &&& forall|i: int, j: int|
        #![trigger st.dat[i], st.dat[j]]
        0 <= i < j < st.dat.len() ==> st.dat[i].label != st.dat[j].label
    &&& forall|i: int|
        0 <= i < st.dat.len() ==> ((#[trigger] st.dat[i]).label matches Some(x)
            && st.variables.contains(x))
}

/// Declaring a data word keeps each one declared once.
pub proof fn lemma_declare_keeps_data_once(st: CompilerState, name: Seq<char>, v: u16)
    requires
        data_declared_once(st),
    ensures
        data_declared_once(declare(st, name, v)),
{
    if !st.variables.contains(name) {
        let s = declare(st, name, v);
        assert forall|i: int, j: int|
            #![trigger s.dat[i], s.dat[j]]
            0 <= i < j < s.dat.len() implies s.dat[i].label != s.dat[j].label by {
            if j == st.dat.len() {
                assert(st.dat[i].label matches Some(x) && st.variables.contains(x));
            } else {
                assert(st.dat[i] == s.dat[i] && st.dat[j] == s.dat[j]);
            }
        }
        assert forall|i: int| 0 <= i < s.dat.len() implies ((#[trigger] s.dat[i]).label matches Some(x)
            && s.variables.contains(x)) by {
            if i < st.dat.len() {
                assert(st.dat[i] == s.dat[i]);
            }
        }
    }
}

/// The code after the operands of an infix operation keeps each data word
/// declared once.
pub proof fn lemma_infix_code_keeps_data_once(st: CompilerState, tt: TokenType, t: Seq<char>)
    requires
        data_declared_once(st),
    ensures
        infix_code(st, tt, t) matches Some(s) ==> data_declared_once(s),
{
    lemma_declare_keeps_data_once(st, literal_name(0), 0);
    let s0 = with_literal(st, 0);
    lemma_declare_keeps_data_once(s0, literal_name(1), 1);
    let s1 = with_literal(s0, 1);
    if tt == TokenType::Multiply {
        lemma_declare_keeps_data_once(s1, temp_name(s1.temp_count), 0);
        if let Some((s2, count)) = take_temp(s1) {
            lemma_declare_keeps_data_once(s2, temp_name(s2.temp_count), 0);
        }
    }
}

/// Compiling an expression keeps each data word declared once.
pub proof fn lemma_expression_keeps_data_once(st: CompilerState, e: SpecExpression)
    requires
        data_declared_once(st),
    ensures
        compile_expression(st, e) matches Some(s) ==> data_declared_once(s),
    decreases e,
{
    match e {
        SpecExpression::Integer(v, _) => {
            lemma_declare_keeps_data_once(st, literal_name(v as u16), v as u16);
        },
        SpecExpression::Boolean(b, _) => {
            lemma_declare_keeps_data_once(st, literal_name(0), 0);
            lemma_declare_keeps_data_once(st, literal_name(1), 1);
        },
        SpecExpression::Prefix(op, right) => {
            lemma_expression_keeps_data_once(st, *right);
            lemma_declare_keeps_data_once(st, literal_name(0), 0);
            let s0 = with_literal(st, 0);
            lemma_declare_keeps_data_once(s0, literal_name(1), 1);
            let s1 = with_literal(s0, 1);
            if let Some((s2, n)) = take_label(s1) {
                lemma_expression_keeps_data_once(s2, *right);
            }
        },
        SpecExpression::Infix(left, op, right) => {
            lemma_expression_keeps_data_once(st, *right);
            if let Some(s1) = compile_expression(st, *right) {
                lemma_declare_keeps_data_once(s1, temp_name(s1.temp_count), 0);
                if let Some((s2, t)) = take_temp(s1) {
                    let s2e = emit(s2, SpecInstruction::Sta(t));
                    lemma_expression_keeps_data_once(s2e, *left);
                    if let Some(s3) = compile_expression(s2e, *left) {
                        lemma_infix_code_keeps_data_once(s3, op.token_type, t);
                    }
                }
            }
        },
        SpecExpression::Call(id, args) => {
            if args.len() > 0 {
                lemma_expression_keeps_data_once(st, args[0]);
            }
        },
        _ => {},
    }
}

/// Compiling a statement keeps each data word declared once.
pub proof fn lemma_statement_keeps_data_once(st: CompilerState, s: SpecStatement)
    requires
        data_declared_once(st),
    ensures
        compile_statement(st, s) matches Some(r) ==> data_declared_once(r),
    decreases s,
{
    match s {
        SpecStatement::Assign(v, e) => {
            lemma_expression_keeps_data_once(st, e);
            if let Some(s1) = compile_expression(st, e) {
                lemma_declare_keeps_data_once(s1, variable_name(v.value), 0);
            }
        },
        SpecStatement::Expression(e) => {
            lemma_expression_keeps_data_once(st, e);
        },
        SpecStatement::Block(b) => {
            lemma_statements_keep_data_once(st, b);
        },
        SpecStatement::If(c, t, e) => {
            if let Some((s1, n)) = take_label(st) {
                let consequence = plain_label(n);
                lemma_expression_keeps_data_once(s1, c);
                if let Some(s2) = compile_expression(s1, c) {
                    lemma_statements_keep_data_once(emit(s2, SpecInstruction::Brp(consequence)), e);
                    if let Some(s3) = compile_statements(emit(s2, SpecInstruction::Brp(consequence)), e) {
                        lemma_statements_keep_data_once(
                            with_label(emit(s3, SpecInstruction::Bra(consequence)), consequence),
                            t,
                        );
                    }
                }
            }
        },
        SpecStatement::While(c, b) => {
            if let Some((s1, n)) = take_label(st) {
                let cond = hinted_label("while"@, "cond"@, n);
                let end = hinted_label("while"@, "end"@, n);
                lemma_expression_keeps_data_once(with_label(s1, cond), c);
                if let Some(s2) = compile_expression(with_label(s1, cond), c) {
                    lemma_statements_keep_data_once(emit(s2, SpecInstruction::Brz(end)), b);
                }
            }
        },
        _ => {},
    }
}

/// Compiling statements in order keeps each data word declared once.
pub proof fn lemma_statements_keep_data_once(st: CompilerState, b: Seq<SpecStatement>)
    requires
        data_declared_once(st),
    ensures
        compile_statements(st, b) matches Some(r) ==> data_declared_once(r),
    decreases b,
{
    if b.len() > 0 {
        lemma_statements_keep_data_once(st, b.drop_last());
        if let Some(s1) = compile_statements(st, b.drop_last()) {
            lemma_statement_keeps_data_once(s1, b.last());
        }
    }
}

/// A compiled program declares each of its data words once: after its
/// statements, the data words have distinct labels.
pub proof fn lemma_program_declares_data_once(b: Seq<SpecStatement>)
    ensures
        compile_statements(initial_state(), b) matches Some(st) ==> data_declared_once(st),
{
    lemma_statements_keep_data_once(initial_state(), b);
}

/// The digits of `n` spell `n`.
proof fn lemma_natural_digits_value(n: nat)
    ensures
        crate::ast::digits_value(natural_digits(n)) == n,
    decreases n,
{
    let d = natural_digits(n);
    let k = (n % 10) as int;
    assert(crate::pretty_print::digit_char(k) as u32 - '0' as u32 == k) by {
        if k == 0 {
        } else if k == 1 {
        } else if k == 2 {
        } else if k == 3 {
        } else if k == 4 {
        } else if k == 5 {
        } else if k == 6 {
        } else if k == 7 {
        } else if k == 8 {
        } else {
        }
    }
    if n >= 10 {
        lemma_natural_digits_value(n / 10);
        assert(d.drop_last() =~= natural_digits(n / 10));
        assert(d.last() == crate::pretty_print::digit_char(k));
        assert(crate::ast::digits_value(d) == crate::ast::digits_value(d.drop_last()) * 10 + (d.last() as u32
            - '0' as u32));
        assert(n == (n / 10) * 10 + k);
    } else {
        assert(d.drop_last() =~= Seq::<char>::empty());
        assert(d.last() == crate::pretty_print::digit_char(k));
        assert(crate::ast::digits_value(d.drop_last()) == 0);
        assert(crate::ast::digits_value(d) == crate::ast::digits_value(d.drop_last()) * 10 + (d.last() as u32
            - '0' as u32));
        assert(k == n);
    }
}

/// Temporaries of different numbers have different names.
proof fn lemma_temp_names_differ(a: nat, b: nat)
    requires
        a != b,
    ensures
        temp_name(a) != temp_name(b),
{
    reveal_strlit("temp_");
    lemma_natural_digits_value(a);
    lemma_natural_digits_value(b);
    assert(temp_name(a).skip(5) =~= natural_digits(a));
    assert(temp_name(b).skip(5) =~= natural_digits(b));
}

/// No temporary shares its name with a literal.
proof fn lemma_literal_not_temp(v: u16, a: nat)
    ensures
        literal_name(v) != temp_name(a),
{
    reveal_strlit("temp_");
    reveal_strlit("literal_");
    assert(literal_name(v)[0] == 'l');
    assert(temp_name(a)[0] == 't');
}

/// The label `hint` of the multiplication number `n`.
pub open spec fn multiplication_label(hint: Seq<char>, n: nat) -> Seq<char> {
    hinted_label("multiplication"@, hint, n)
}

/// The branches that chain the labels `nl` pending before an instruction.
pub open spec fn pending_lead(nl: Seq<Seq<char>>) -> Seq<SpecLine> {
    if nl.len() == 0 {
        Seq::empty()
    } else {
        chain_lines(nl)
    }
}

/// The label that the next instruction carries when `nl` are pending.
pub open spec fn pending_label(nl: Seq<Seq<char>>) -> Option<Seq<char>> {
    if nl.len() == 0 {
        None
    } else {
        Some(nl.last())
    }
}

/// The lines of the multiplication number `n` by repeated addition: the
/// left operand counted down in `count`, `t` added to `result` each time.
pub open spec fn multiplication_lines(
    first: Option<Seq<char>>,
    count: Seq<char>,
    result: Seq<char>,
    t: Seq<char>,
    n: nat,
) -> Seq<SpecLine> {
    let zero = literal_name(0);
    let one = literal_name(1);
    let while_start = multiplication_label("while_start"@, n);
    let comp_true = multiplication_label("comp_true"@, n);
    let comp_false = multiplication_label("comp_false"@, n);
    let comp_done = multiplication_label("comp_done"@, n);
    let finish = multiplication_label("finish"@, n);
    seq![
        SpecLine { label: first, inst: SpecInstruction::Sta(count) },
        SpecLine { label: None, inst: SpecInstruction::Lda(zero) },
        SpecLine { label: None, inst: SpecInstruction::Sta(result) },
        SpecLine { label: Some(while_start), inst: SpecInstruction::Lda(count) },
        SpecLine { label: None, inst: SpecInstruction::Brz(comp_false) },
        SpecLine { label: None, inst: SpecInstruction::Brp(comp_true) },
        SpecLine { label: Some(comp_false), inst: SpecInstruction::Lda(zero) },
        SpecLine { label: None, inst: SpecInstruction::Bra(comp_done) },
        SpecLine { label: Some(comp_true), inst: SpecInstruction::Lda(one) },
        SpecLine { label: Some(comp_done), inst: SpecInstruction::Brz(finish) },
        SpecLine { label: None, inst: SpecInstruction::Lda(result) },
        SpecLine { label: None, inst: SpecInstruction::Add(t) },
        SpecLine { label: None, inst: SpecInstruction::Sta(result) },
        SpecLine { label: None, inst: SpecInstruction::Lda(count) },
        SpecLine { label: None, inst: SpecInstruction::Sub(one) },
        SpecLine { label: None, inst: SpecInstruction::Sta(count) },
        SpecLine { label: None, inst: SpecInstruction::Bra(while_start) },
        SpecLine { label: Some(finish), inst: SpecInstruction::Lda(result) },
    ]
}

/// The code of a multiplication follows the code before it and the branches
/// that chain the labels pending there; its temporaries are the next two.
pub proof fn lemma_multiplication_layout(st: CompilerState, t: Seq<char>)
    requires
        multiplication_code(st, t) is Some,
    ensures
        multiplication_code(st, t).unwrap().program == st.program + pending_lead(st.next_label)
            + multiplication_lines(
            pending_label(st.next_label),
            temp_name(st.temp_count),
            temp_name(st.temp_count + 1),
            t,
            st.label_count,
        ),
{
    let h = multiplication_code(st, t).unwrap();
    let lines = multiplication_lines(
        pending_label(st.next_label),
        temp_name(st.temp_count),
        temp_name(st.temp_count + 1),
        t,
        st.label_count,
    );
    assert(h.program =~= st.program + pending_lead(st.next_label) + lines);
}

/// The loop of a multiplication, entered with `c` (not negative) in `count`
/// and `x` in `result`, leaves after `12 * c + 6` steps at the line after
/// the code with `x + c * r` in the accumulator.
proof fn lemma_multiplication_loop(
    p: Seq<SpecLine>,
    k: int,
    names: (Seq<char>, Seq<char>, Seq<char>, Seq<char>, Seq<char>),
    labels: (Seq<char>, Seq<char>, Seq<char>, Seq<char>, Seq<char>),
    m: Machine,
    c: int,
    x: int,
    r: int,
)
    requires
        0 <= k,
        k + 18 <= p.len(),
        ({
            let (count, result, t, zero, one) = names;
            let (ws, cf, ct, cd, fin) = labels;
            &&& p[k + 3].inst == SpecInstruction::Lda(count)
            &&& p[k + 4].inst == SpecInstruction::Brz(cf)
            &&& p[k + 5].inst == SpecInstruction::Brp(ct)
            &&& p[k + 6].inst == SpecInstruction::Lda(zero)
            &&& p[k + 7].inst == SpecInstruction::Bra(cd)
            &&& p[k + 8].inst == SpecInstruction::Lda(one)
            &&& p[k + 9].inst == SpecInstruction::Brz(fin)
            &&& p[k + 10].inst == SpecInstruction::Lda(result)
            &&& p[k + 11].inst == SpecInstruction::Add(t)
            &&& p[k + 12].inst == SpecInstruction::Sta(result)
            &&& p[k + 13].inst == SpecInstruction::Lda(count)
            &&& p[k + 14].inst == SpecInstruction::Sub(one)
            &&& p[k + 15].inst == SpecInstruction::Sta(count)
            &&& p[k + 16].inst == SpecInstruction::Bra(ws)
            &&& p[k + 17].inst == SpecInstruction::Lda(result)
            &&& target(p, ws) == k + 3
            &&& target(p, cf) == k + 6
            &&& target(p, ct) == k + 8
            &&& target(p, cd) == k + 9
            &&& target(p, fin) == k + 17
            &&& count != result && count != t && count != zero && count != one
            &&& result != t && result != zero && result != one
            &&& m.mem[count] == c && m.mem[result] == x && m.mem[t] == r
            &&& m.mem[zero] == 0 && m.mem[one] == 1
        }),
        m.pc == k + 3,
        !m.halted,
        0 <= c,
    ensures
        run(p, m, (12 * c + 6) as nat).pc == k + 18,
        run(p, m, (12 * c + 6) as nat).acc == x + c * r,
        !run(p, m, (12 * c + 6) as nat).halted,
        run(p, m, (12 * c + 6) as nat).input == m.input,
        run(p, m, (12 * c + 6) as nat).output == m.output,
        run(p, m, (12 * c + 6) as nat).mem[names.2] == r,
        run(p, m, (12 * c + 6) as nat).mem[names.3] == 0,
        run(p, m, (12 * c + 6) as nat).mem[names.4] == 1,
    decreases c,
{
    let (count, result, t, zero, one) = names;
    if c == 0 {
        let m1 = step(p, m);
        let m2 = step(p, m1);
        let m3 = step(p, m2);
        let m4 = step(p, m3);
        let m5 = step(p, m4);
        let m6 = step(p, m5);
        assert(m1.pc == k + 4 && m1.acc == 0);
        assert(m2.pc == k + 6);
        assert(m3.pc == k + 7 && m3.acc == 0);
        assert(m4.pc == k + 9);
        assert(m5.pc == k + 17);
        assert(m6.pc == k + 18 && m6.acc == x);
        reveal_with_fuel(run, 7);
        assert(run(p, m, 6) == m6);
    } else {
        let m1 = step(p, m);
        let m2 = step(p, m1);
        let m3 = step(p, m2);
        let m4 = step(p, m3);
        let m5 = step(p, m4);
        let m6 = step(p, m5);
        let m7 = step(p, m6);
        let m8 = step(p, m7);
        let m9 = step(p, m8);
        let m10 = step(p, m9);
        let m11 = step(p, m10);
        let m12 = step(p, m11);
        assert(m1.pc == k + 4 && m1.acc == c);
        assert(m2.pc == k + 5);
        assert(m3.pc == k + 8);
        assert(m4.pc == k + 9 && m4.acc == 1);
        assert(m5.pc == k + 10);
        assert(m6.pc == k + 11 && m6.acc == x);
        assert(m7.pc == k + 12 && m7.acc == x + r);
        assert(m8.pc == k + 13 && m8.mem[result] == x + r && m8.mem[count] == c);
        assert(m9.pc == k + 14 && m9.acc == c);
        assert(m10.pc == k + 15 && m10.acc == c - 1);
        assert(m11.pc == k + 16 && m11.mem[count] == c - 1 && m11.mem[result] == x + r);
        assert(m12.pc == k + 3);
        assert(m12.mem[t] == r && m12.mem[zero] == 0 && m12.mem[one] == 1);
        reveal_with_fuel(run, 13);
        assert(run(p, m, 12) == m12);
        lemma_multiplication_loop(p, k, names, labels, m12, c - 1, x + r, r);
        lemma_run_split(p, m, 12, (12 * (c - 1) + 6) as nat);
        assert(12 * c + 6 == 12 + (12 * (c - 1) + 6));
        assert(x + r + (c - 1) * r == x + c * r) by (nonlinear_arith);
    }
}

/// Where the code of a multiplication starts: after the code before it and
/// the branches that chain the labels pending there.
pub open spec fn multiplication_start(st: CompilerState) -> int {
    (st.program.len() + pending_lead(st.next_label).len()) as int
}

/// The multiplication leaves the product in the accumulator: in a program
/// `p` that begins with the code that `multiplication_code` gives, whose
/// labels each name its own line there, a run from the first line of the
/// multiplication, with the left operand `l` (not negative) in the
/// accumulator and the right one `r` in `t` (a temporary taken before, as
/// the compiler hands it over), reaches the end of that code after
/// `12 * l + 9` steps with `l * r` in the accumulator. It reads no input,
/// outputs nothing, and leaves `t` and the literals as they were.
pub proof fn lemma_multiplication_run(
    st: CompilerState,
    t: Seq<char>,
    j: nat,
    p: Seq<SpecLine>,
    m: Machine,
    l: int,
    r: int,
)
    requires
        multiplication_code(st, t) is Some,
        multiplication_code(st, t).unwrap().program.len() <= p.len(),
        p.take(multiplication_code(st, t).unwrap().program.len() as int) == multiplication_code(
            st,
            t,
        ).unwrap().program,
        names_line(p, multiplication_label("while_start"@, st.label_count), multiplication_start(st) + 3),
        names_line(p, multiplication_label("comp_false"@, st.label_count), multiplication_start(st) + 6),
        names_line(p, multiplication_label("comp_true"@, st.label_count), multiplication_start(st) + 8),
        names_line(p, multiplication_label("comp_done"@, st.label_count), multiplication_start(st) + 9),
        names_line(p, multiplication_label("finish"@, st.label_count), multiplication_start(st) + 17),
        j < st.temp_count,
        t == temp_name(j),
        m.pc == multiplication_start(st),
        !m.halted,
        m.acc == l,
        0 <= l,
        m.mem[t] == r,
        m.mem[literal_name(0)] == 0,
        m.mem[literal_name(1)] == 1,
    ensures
        run(p, m, (12 * l + 9) as nat).pc == multiplication_code(st, t).unwrap().program.len(),
        run(p, m, (12 * l + 9) as nat).acc == l * r,
        !run(p, m, (12 * l + 9) as nat).halted,
        run(p, m, (12 * l + 9) as nat).input == m.input,
        run(p, m, (12 * l + 9) as nat).output == m.output,
        run(p, m, (12 * l + 9) as nat).mem[t] == r,
        run(p, m, (12 * l + 9) as nat).mem[literal_name(0)] == 0,
        run(p, m, (12 * l + 9) as nat).mem[literal_name(1)] == 1,
{
    let n = st.label_count;
    let count = temp_name(st.temp_count);
    let result = temp_name(st.temp_count + 1);
    let zero = literal_name(0);
    let one = literal_name(1);
    let ws = multiplication_label("while_start"@, n);
    let cf = multiplication_label("comp_false"@, n);
    let ct = multiplication_label("comp_true"@, n);
    let cd = multiplication_label("comp_done"@, n);
    let fin = multiplication_label("finish"@, n);
    let k = multiplication_start(st);
    let h = multiplication_code(st, t).unwrap();
    let lines = multiplication_lines(pending_label(st.next_label), count, result, t, n);
    lemma_multiplication_layout(st, t);
    assert(h.program.len() == k + 18);
    assert forall|i: int| 0 <= i < 18 implies #[trigger] p[k + i] == lines[i] by {
        assert(p[k + i] == p.take(h.program.len() as int)[k + i]);
        assert(h.program[k + i] == lines[i]);
    }
    assert(p[k + 0] == lines[0]);
    assert(p[k + 1] == lines[1]);
    assert(p[k + 2] == lines[2]);
    assert(p[k + 3] == lines[3]);
    assert(p[k + 4] == lines[4]);
    assert(p[k + 5] == lines[5]);
    assert(p[k + 6] == lines[6]);
    assert(p[k + 7] == lines[7]);
    assert(p[k + 8] == lines[8]);
    assert(p[k + 9] == lines[9]);
    assert(p[k + 10] == lines[10]);
    assert(p[k + 11] == lines[11]);
    assert(p[k + 12] == lines[12]);
    assert(p[k + 13] == lines[13]);
    assert(p[k + 14] == lines[14]);
    assert(p[k + 15] == lines[15]);
    assert(p[k + 16] == lines[16]);
    assert(p[k + 17] == lines[17]);
    lemma_target(p, ws, k + 3);
    lemma_target(p, cf, k + 6);
    lemma_target(p, ct, k + 8);
    lemma_target(p, cd, k + 9);
    lemma_target(p, fin, k + 17);
    lemma_temp_names_differ(st.temp_count, st.temp_count + 1);
    lemma_temp_names_differ(j, st.temp_count);
    lemma_temp_names_differ(j, st.temp_count + 1);
    lemma_literal_not_temp(0, st.temp_count);
    lemma_literal_not_temp(1, st.temp_count);
    lemma_literal_not_temp(0, st.temp_count + 1);
    lemma_literal_not_temp(1, st.temp_count + 1);
    let m1 = step(p, m);
    let m2 = step(p, m1);
    let m3 = step(p, m2);
    assert(m1.pc == k + 1 && m1.mem[count] == l);
    assert(m2.pc == k + 2 && m2.acc == 0);
    assert(m3.pc == k + 3 && m3.mem[result] == 0 && m3.mem[count] == l);
    assert(m3.mem[t] == r && m3.mem[zero] == 0 && m3.mem[one] == 1);
    reveal_with_fuel(run, 4);
    assert(run(p, m, 3) == m3);
    lemma_multiplication_loop(p, k, (count, result, t, zero, one), (ws, cf, ct, cd, fin), m3, l, 0, r);
    lemma_run_split(p, m, 3, (12 * l + 6) as nat);
    assert(12 * l + 9 == 3 + (12 * l + 6));
}

/// Whether `tt` compares its operands: `==`, `!=`, `>`, `>=`, `<`, `<=`.
pub open spec fn is_comparison(tt: TokenType) -> bool {
    tt is Equal || tt is NotEqual || tt is Greater || tt is GreaterEqual || tt is Lesser
        || tt is LesserEqual
}

/// What a comparison of `a` with `b` yields: 1 when it holds, 0 when not.
pub open spec fn comparison_value(tt: TokenType, a: int, b: int) -> int {
    let holds = match tt {
        TokenType::Equal => a == b,
        TokenType::NotEqual => a != b,
        TokenType::Greater => a > b,
        TokenType::GreaterEqual => a >= b,
        TokenType::Lesser => a < b,
        _ => a <= b,
    };
    if holds {
        1
    } else {
        0
    }
}

/// The label `hint` of the comparison `tt` number `n`.
pub open spec fn comparison_label(tt: TokenType, hint: Seq<char>, n: nat) -> Seq<char> {
    hinted_label(comparison_name(tt), hint, n)
}

/// The lines of the comparison `tt` number `n`, the right operand in `t`; the
/// first carries `first`.
pub open spec fn comparison_lines(tt: TokenType, first: Option<Seq<char>>, t: Seq<char>, n: nat) -> Seq<
    SpecLine,
> {
    let zero = literal_name(0);
    let one = literal_name(1);
    let l_true = comparison_label(tt, "true"@, n);
    let l_false = comparison_label(tt, "false"@, n);
    let l_continue = comparison_label(tt, "continue"@, n);
    let sub = SpecLine { label: first, inst: SpecInstruction::Sub(t) };
    match tt {
        TokenType::Equal | TokenType::NotEqual => seq![
            sub,
            SpecLine { label: None, inst: SpecInstruction::Brz(l_true) },
            SpecLine { label: None, inst: SpecInstruction::Brp(l_false) },
            SpecLine {
                label: Some(l_false),
                inst: SpecInstruction::Lda(if tt is Equal { zero } else { one }),
            },
            SpecLine { label: None, inst: SpecInstruction::Bra(l_continue) },
            SpecLine {
                label: Some(l_true),
                inst: SpecInstruction::Lda(if tt is Equal { one } else { zero }),
            },
        ],
        TokenType::Greater => seq![
            sub,
            SpecLine { label: None, inst: SpecInstruction::Brz(l_false) },
            SpecLine { label: None, inst: SpecInstruction::Brp(l_true) },
            SpecLine { label: Some(l_false), inst: SpecInstruction::Lda(zero) },
            SpecLine { label: None, inst: SpecInstruction::Bra(l_continue) },
            SpecLine { label: Some(l_true), inst: SpecInstruction::Lda(one) },
        ],
        TokenType::GreaterEqual => seq![
            sub,
            SpecLine { label: None, inst: SpecInstruction::Brp(l_true) },
            SpecLine { label: Some(l_false), inst: SpecInstruction::Lda(zero) },
            SpecLine { label: None, inst: SpecInstruction::Bra(l_continue) },
            SpecLine { label: Some(l_true), inst: SpecInstruction::Lda(one) },
        ],
        TokenType::Lesser => seq![
            sub,
            SpecLine { label: None, inst: SpecInstruction::Brp(l_false) },
            SpecLine { label: Some(l_true), inst: SpecInstruction::Lda(one) },
            SpecLine { label: None, inst: SpecInstruction::Bra(l_continue) },
            SpecLine { label: Some(l_false), inst: SpecInstruction::Lda(zero) },
        ],
        _ => seq![
            sub,
            SpecLine { label: None, inst: SpecInstruction::Brz(l_true) },
            SpecLine { label: None, inst: SpecInstruction::Brp(l_false) },
            SpecLine { label: Some(l_true), inst: SpecInstruction::Lda(one) },
            SpecLine { label: None, inst: SpecInstruction::Bra(l_continue) },
            SpecLine { label: Some(l_false), inst: SpecInstruction::Lda(zero) },
        ],
    }
}

/// The code of a comparison follows the code before it and the branches that
/// chain the labels pending there.
proof fn lemma_comparison_layout(st: CompilerState, tt: TokenType, t: Seq<char>)
    requires
        is_comparison(tt),
        infix_code(st, tt, t) is Some,
    ensures
        infix_code(st, tt, t).unwrap().program == st.program + pending_lead(st.next_label)
            + comparison_lines(tt, pending_label(st.next_label), t, st.label_count),
{
    let h = infix_code(st, tt, t).unwrap();
    let lines = comparison_lines(tt, pending_label(st.next_label), t, st.label_count);
    assert(h.program =~= st.program + pending_lead(st.next_label) + lines);
}

/// With distinct labels, a label names the line that carries it.
proof fn lemma_target_of_distinct(p: Seq<SpecLine>, l: Seq<char>, i: int)
    requires
        crate::optimiser::labels_distinct(p),
        0 <= i < p.len(),
        p[i].label == Some(l),
    ensures
        target(p, l) == i,
{
    assert forall|j: int| 0 <= j < p.len() && #[trigger] p[j].label == Some(l) implies j == i by {
        if j < i {
            assert(p[j].label != p[i].label);
        } else if i < j {
            assert(p[i].label != p[j].label);
        }
    }
    lemma_target(p, l, i);
}

/// Where the code that the compiler appends to `st` starts: after the code
/// before it and the branches that chain the labels pending there.
pub open spec fn code_start(st: CompilerState) -> int {
    (st.program.len() + pending_lead(st.next_label).len()) as int
}

/// Whether the run of `p` from `m` stands, after `n` steps, at line `pc` with
/// `acc` in the accumulator, having changed no data, read no input, output
/// nothing, and not stopped.
pub open spec fn reaches_with(p: Seq<SpecLine>, m: Machine, n: nat, pc: int, acc: int) -> bool {
    let r = run(p, m, n);
    &&& r.pc == pc
    &&& r.acc == acc
    &&& r.mem == m.mem
    &&& r.input == m.input
    &&& r.output == m.output
    &&& !r.halted
}

/// A comparison leaves its truth in the accumulator: in a program `p` that
/// begins with the code that `infix_code` gives for the comparison `tt`,
/// whose labels are distinct and whose next line carries the comparison's
/// `continue` label, a run from the first line of the comparison, with the
/// left operand `a` in the accumulator and the right one `b` in `t`, reaches
/// the end of that code with 1 in the accumulator when `a tt b` holds and 0
/// when not (`==` gives 1 exactly when `a - b` is 0, `!=` exactly when it is
/// not). It changes no data, reads no input and outputs nothing.
pub proof fn lemma_comparison_run(
    st: CompilerState,
    tt: TokenType,
    t: Seq<char>,
    p: Seq<SpecLine>,
    m: Machine,
    a: int,
    b: int,
)
    requires
        is_comparison(tt),
        infix_code(st, tt, t) is Some,
        infix_code(st, tt, t).unwrap().program.len() < p.len(),
        p.take(infix_code(st, tt, t).unwrap().program.len() as int) == infix_code(
            st,
            tt,
            t,
        ).unwrap().program,
        crate::optimiser::labels_distinct(p),
        p[infix_code(st, tt, t).unwrap().program.len() as int].label == Some(
            comparison_label(tt, "continue"@, st.label_count),
        ),
        m.pc == code_start(st),
        !m.halted,
        m.acc == a,
        m.mem[t] == b,
        m.mem[literal_name(0)] == 0,
        m.mem[literal_name(1)] == 1,
    ensures
        exists|n: nat|
            #[trigger] reaches_with(
                p,
                m,
                n,
                infix_code(st, tt, t).unwrap().program.len() as int,
                comparison_value(tt, a, b),
            ),
{
    let n = st.label_count;
    let h = infix_code(st, tt, t).unwrap();
    let end = h.program.len() as int;
    let k = code_start(st);
    let lines = comparison_lines(tt, pending_label(st.next_label), t, n);
    lemma_comparison_layout(st, tt, t);
    assert(end == k + lines.len());
    assert forall|i: int| 0 <= i < lines.len() implies #[trigger] p[k + i] == lines[i] by {
        assert(p[k + i] == p.take(end)[k + i]);
        assert(h.program[k + i] == lines[i]);
    }
    let l_true = comparison_label(tt, "true"@, n);
    let l_false = comparison_label(tt, "false"@, n);
    let l_cont = comparison_label(tt, "continue"@, n);
    lemma_target_of_distinct(p, l_cont, end);
    assert(p[k + 0] == lines[0]);
    assert(p[k + 1] == lines[1]);
    assert(p[k + 2] == lines[2]);
    assert(p[k + 3] == lines[3]);
    assert(p[k + 4] == lines[4]);
    if lines.len() == 6 {
        assert(p[k + 5] == lines[5]);
    }
    let d = a - b;
    let m1 = step(p, m);
    let m2 = step(p, m1);
    let m3 = step(p, m2);
    let m4 = step(p, m3);
    let m5 = step(p, m4);
    assert(m1.pc == k + 1 && m1.acc == d && m1.mem == m.mem);
    reveal_with_fuel(run, 6);
    let v = comparison_value(tt, a, b);
    match tt {
        TokenType::Equal | TokenType::NotEqual => {
            lemma_target_of_distinct(p, l_false, k + 3);
            lemma_target_of_distinct(p, l_true, k + 5);
            if d == 0 {
                assert(m2.pc == k + 5);
                assert(m3.pc == end && m3.acc == v);
                assert(reaches_with(p, m, 3, end, v));
            } else {
                assert(m2.pc == k + 2);
                assert(m3.pc == k + 3);
                assert(m4.pc == k + 4 && m4.acc == v);
                assert(m5.pc == end);
                assert(reaches_with(p, m, 5, end, v));
            }
        },
        TokenType::Greater => {
            lemma_target_of_distinct(p, l_false, k + 3);
            lemma_target_of_distinct(p, l_true, k + 5);
            if d == 0 {
                assert(m2.pc == k + 3);
                assert(m3.pc == k + 4 && m3.acc == v);
                assert(m4.pc == end);
                assert(reaches_with(p, m, 4, end, v));
            } else if d > 0 {
                assert(m2.pc == k + 2);
                assert(m3.pc == k + 5);
                assert(m4.pc == end && m4.acc == v);
                assert(reaches_with(p, m, 4, end, v));
            } else {
                assert(m2.pc == k + 2);
                assert(m3.pc == k + 3);
                assert(m4.pc == k + 4 && m4.acc == v);
                assert(m5.pc == end);
                assert(reaches_with(p, m, 5, end, v));
            }
        },
        TokenType::GreaterEqual => {
            lemma_target_of_distinct(p, l_false, k + 2);
            lemma_target_of_distinct(p, l_true, k + 4);
            if d >= 0 {
                assert(m2.pc == k + 4);
                assert(m3.pc == end && m3.acc == v);
                assert(reaches_with(p, m, 3, end, v));
            } else {
                assert(m2.pc == k + 2);
                assert(m3.pc == k + 3 && m3.acc == v);
                assert(m4.pc == end);
                assert(reaches_with(p, m, 4, end, v));
            }
        },
        TokenType::Lesser => {
            lemma_target_of_distinct(p, l_true, k + 2);
            lemma_target_of_distinct(p, l_false, k + 4);
            if d >= 0 {
                assert(m2.pc == k + 4);
                assert(m3.pc == end && m3.acc == v);
                assert(reaches_with(p, m, 3, end, v));
            } else {
                assert(m2.pc == k + 2);
                assert(m3.pc == k + 3 && m3.acc == v);
                assert(m4.pc == end);
                assert(reaches_with(p, m, 4, end, v));
            }
        },
        _ => {
            lemma_target_of_distinct(p, l_true, k + 3);
            lemma_target_of_distinct(p, l_false, k + 5);
            if d == 0 {
                assert(m2.pc == k + 3);
                assert(m3.pc == k + 4 && m3.acc == v);
                assert(m4.pc == end);
                assert(reaches_with(p, m, 4, end, v));
            } else if d > 0 {
                assert(m2.pc == k + 2);
                assert(m3.pc == k + 5);
                assert(m4.pc == end && m4.acc == v);
                assert(reaches_with(p, m, 4, end, v));
            } else {
                assert(m2.pc == k + 2);
                assert(m3.pc == k + 3);
                assert(m4.pc == k + 4 && m4.acc == v);
                assert(m5.pc == end);
                assert(reaches_with(p, m, 5, end, v));
            }
        },
    }
}

/// Addition and subtraction leave the sum and the difference: in a program
/// `p` that begins with the code that `infix_code` gives for `+` or `-`, a
/// run from that code's first line, with the left operand `a` in the
/// accumulator and the right one `b` in `t`, reaches the end of the code
/// after one step with `a + b` or `a - b` in the accumulator, changing no
/// data, reading no input and outputting nothing.
pub proof fn lemma_arithmetic_run(
    st: CompilerState,
    tt: TokenType,
    t: Seq<char>,
    p: Seq<SpecLine>,
    m: Machine,
    a: int,
    b: int,
)
    requires
        tt is Plus || tt is Minus,
        infix_code(st, tt, t).unwrap().program.len() <= p.len(),
        p.take(infix_code(st, tt, t).unwrap().program.len() as int) == infix_code(
            st,
            tt,
            t,
        ).unwrap().program,
        m.pc == code_start(st),
        !m.halted,
        m.acc == a,
        m.mem[t] == b,
    ensures
        reaches_with(
            p,
            m,
            1,
            infix_code(st, tt, t).unwrap().program.len() as int,
            if tt is Plus {
                a + b
            } else {
                a - b
            },
        ),
{
    let h = infix_code(st, tt, t).unwrap();
    let k = code_start(st);
    let inst = if tt is Plus {
        SpecInstruction::Add(t)
    } else {
        SpecInstruction::Sub(t)
    };
    assert(h.program =~= st.program + pending_lead(st.next_label) + seq![
        SpecLine { label: pending_label(st.next_label), inst },
    ]);
    assert(p[k] == p.take(h.program.len() as int)[k]);
    assert(p[k].inst == inst);
    reveal_with_fuel(run, 2);
}

} // verus!
