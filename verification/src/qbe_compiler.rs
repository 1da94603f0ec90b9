//! The compiler to a QBE module: one exported function `main` that runs the
//! program's statements and returns 0, and a data definition `fmt` that
//! `print` hands to `printf`.
use vstd::prelude::*;
use crate::ast::{
    BlockStatement, Expression, ForLoopStatement, FunctionCallExpression, IfStatement,
    ProgramRoot, SpecExpression, SpecStatement, Statement, WhileStatement,
};
use crate::ir::{
    IrBlock, IrCmp, IrData, IrDataItem, IrFunction, IrInstr, IrModule, IrStatement, IrType,
    IrValue, SpecBlock, SpecInstr, SpecIrStatement, SpecValue, blocks_model, statements_model,
};
use crate::pretty_print::{natural_digits, natural_string};
use crate::text::{push_str, str_eq, string_from_str};
use crate::token::TokenType;

verus! {

/// What the compiler has built so far: the blocks of `main`, the last one
/// being the one that instructions go to, and the counts of the temporaries
/// and jump labels it has named.
#[verifier::ext_equal]
pub struct QbeState {
    pub blocks: Seq<SpecBlock>,
    pub temps: nat,
    pub labels: nat,
}

/// Appends the statement `s` to the last block.
pub open spec fn append(st: QbeState, s: SpecIrStatement) -> QbeState {
    let last = st.blocks.last();
    QbeState {
        blocks: st.blocks.update(
            st.blocks.len() - 1,
            SpecBlock { label: last.label, items: last.items.push(s) },
        ),
        ..st
    }
}

/// Appends the instruction `i`, run for its effect, to the last block.
pub open spec fn add_instr(st: QbeState, i: SpecInstr) -> QbeState {
    append(st, SpecIrStatement::Volatile(i))
}

/// Appends to the last block the instruction `i`, whose result `v` of type
/// `t` receives.
pub open spec fn assign_instr(st: QbeState, v: SpecValue, t: IrType, i: SpecInstr) -> QbeState {
    append(st, SpecIrStatement::Assign(v, t, i))
}

/// Starts a new, empty block labelled `label`.
pub open spec fn add_block(st: QbeState, label: Seq<char>) -> QbeState {
    QbeState { blocks: st.blocks.push(SpecBlock { label, items: Seq::empty() }), ..st }
}

/// The name of the temporary number `n`.
pub open spec fn temporary_name(n: nat) -> Seq<char> {
    "t"@ + natural_digits(n)
}

/// The jump label number `n`.
pub open spec fn jump_label(n: nat) -> Seq<char> {
    "b"@ + natural_digits(n)
}

/// Names a new temporary; `None` when the count would overflow.
pub open spec fn new_temporary(st: QbeState) -> Option<(QbeState, SpecValue)> {
    if st.temps >= u64::MAX {
        None
    } else {
        Some(
            (
                QbeState { temps: st.temps + 1, ..st },
                SpecValue::Temporary(temporary_name(st.temps)),
            ),
        )
    }
}

/// Names a new jump label; `None` when the count would overflow.
pub open spec fn new_jump_label(st: QbeState) -> Option<(QbeState, Seq<char>)> {
    if st.labels >= u64::MAX {
        None
    } else {
        Some((QbeState { labels: st.labels + 1, ..st }, jump_label(st.labels)))
    }
}

/// The instruction of the infix operator `tt` on `l` and `r`; `None` for an
/// operator that has none.
pub open spec fn infix_instr(tt: TokenType, l: SpecValue, r: SpecValue) -> Option<SpecInstr> {
    match tt {
        TokenType::Plus => Some(SpecInstr::Add(l, r)),
        TokenType::Minus => Some(SpecInstr::Sub(l, r)),
        TokenType::Divide => Some(SpecInstr::Div(l, r)),
        TokenType::Multiply => Some(SpecInstr::Mul(l, r)),
        TokenType::Modulo => Some(SpecInstr::Rem(l, r)),
        TokenType::Equal => Some(SpecInstr::Cmp(IrType::Word, IrCmp::Eq, l, r)),
        TokenType::NotEqual => Some(SpecInstr::Cmp(IrType::Word, IrCmp::Ne, l, r)),
        TokenType::Greater => Some(SpecInstr::Cmp(IrType::Word, IrCmp::Sgt, l, r)),
        TokenType::GreaterEqual => Some(SpecInstr::Cmp(IrType::Word, IrCmp::Sge, l, r)),
        TokenType::Lesser => Some(SpecInstr::Cmp(IrType::Word, IrCmp::Slt, l, r)),
        TokenType::LesserEqual => Some(SpecInstr::Cmp(IrType::Word, IrCmp::Sle, l, r)),
        _ => None,
    }
}

/// The instruction of the prefix operator `tt` on `r`; `None` for an operator
/// that has none.
pub open spec fn prefix_instr(tt: TokenType, r: SpecValue) -> Option<SpecInstr> {
    match tt {
        TokenType::Plus => Some(SpecInstr::Copy(r)),
        TokenType::Minus => Some(SpecInstr::Sub(SpecValue::Const(0), r)),
        TokenType::Not => Some(SpecInstr::Cmp(IrType::Word, IrCmp::Ne, r, SpecValue::Const(1))),
        _ => None,
    }
}

/// The call that prints `v` with the format `fmt`.
pub open spec fn print_call(v: SpecValue) -> SpecInstr {
    SpecInstr::Call(
        "printf"@,
        seq![(IrType::Long, SpecValue::Global("fmt"@)), (IrType::Word, v)],
        None,
    )
}

/// What compiling the expression `e` gives: the state after its code and the
/// value that holds its result; `None` where the compiler stops (a Boolean or
/// a string, an operator it has no instruction for, a function other than
/// `print`, `print` without exactly one argument, a count that overflows).
pub open spec fn compile_expression(st: QbeState, e: SpecExpression) -> Option<(QbeState, SpecValue)>
    decreases e,
{
    match e {
        SpecExpression::Integer(v, _) => Some((st, SpecValue::Const(v as u64))),
        SpecExpression::Identifier(i) => Some((st, SpecValue::Temporary(i.value))),
        SpecExpression::Infix(left, op, right) => match new_temporary(st) {
            None => None,
            Some((s1, temp)) => match compile_expression(s1, *left) {
                None => None,
                Some((s2, l)) => match compile_expression(s2, *right) {
                    None => None,
                    Some((s3, r)) => match infix_instr(op.token_type, l, r) {
                        None => None,
                        Some(i) => Some((assign_instr(s3, temp, IrType::Word, i), temp)),
                    },
                },
            },
        },
        SpecExpression::Prefix(op, right) => match new_temporary(st) {
            None => None,
            Some((s1, temp)) => match compile_expression(s1, *right) {
                None => None,
                Some((s2, r)) => match prefix_instr(op.token_type, r) {
                    None => None,
                    Some(i) => Some((assign_instr(s2, temp, IrType::Word, i), temp)),
                },
            },
        },
        SpecExpression::Call(id, args) => if id.value == "print"@ && args.len() == 1 {
            match compile_expression(st, args[0]) {
                None => None,
                Some((s1, v)) => Some((add_instr(s1, print_call(v)), SpecValue::Const(0))),
            }
        } else {
            None
        },
        _ => None,
    }
}

/// What compiling the statement `s` gives; `None` where the compiler stops (a
/// bare block, a `return`, a procedure, or an expression or a count it stops
/// at).
pub open spec fn compile_statement(st: QbeState, s: SpecStatement) -> Option<QbeState>
    decreases s,
{
    match s {
        SpecStatement::Expression(e) => match compile_expression(st, e) {
            None => None,
            Some((s1, _)) => Some(s1),
        },
        SpecStatement::Assign(id, e) => match compile_expression(st, e) {
            None => None,
            Some((s1, v)) => Some(
                assign_instr(s1, SpecValue::Temporary(id.value), IrType::Word, SpecInstr::Copy(v)),
            ),
        },
        SpecStatement::If(cond, cons, alt) => match compile_expression(st, cond) {
            None => None,
            Some((s1, v)) => match new_jump_label(s1) {
                None => None,
                Some((s2, l_cons)) => match new_jump_label(s2) {
                    None => None,
                    Some((s3, l_alt)) => match new_jump_label(s3) {
                        None => None,
                        Some((s4, l_end)) => {
                            let s5 = add_block(add_instr(s4, SpecInstr::Jnz(v, l_cons, l_alt)), l_cons);
                            match compile_statements(s5, cons) {
                                None => None,
                                Some(s6) => {
                                    let s7 = add_block(add_instr(s6, SpecInstr::Jmp(l_end)), l_alt);
                                    match compile_statements(s7, alt) {
                                        None => None,
                                        Some(s8) => Some(add_block(add_instr(s8, SpecInstr::Jmp(l_end)), l_end)),
                                    }
                                },
                            }
                        },
                    },
                },
            },
        },
        SpecStatement::While(cond, body) => match new_jump_label(st) {
            None => None,
            Some((s1, l_cond)) => match new_jump_label(s1) {
                None => None,
                Some((s2, l_body)) => match new_jump_label(s2) {
                    None => None,
                    Some((s3, l_end)) => match compile_expression(add_block(s3, l_cond), cond) {
                        None => None,
                        Some((s4, v)) => {
                            let s5 = add_block(add_instr(s4, SpecInstr::Jnz(v, l_body, l_end)), l_body);
                            match compile_statements(s5, body) {
                                None => None,
                                Some(s6) => Some(add_block(add_instr(s6, SpecInstr::Jmp(l_cond)), l_end)),
                            }
                        },
                    },
                },
            },
        },
        SpecStatement::ForLoop(var, init, end, body, next) => match compile_expression(st, init) {
            None => None,
            Some((s1, start)) => match compile_expression(s1, end) {
                None => None,
                Some((s2, stop)) => match new_jump_label(s2) {
                    None => None,
                    Some((s3, l_cond)) => match new_jump_label(s3) {
                        None => None,
                        Some((s4, l_body)) => match new_jump_label(s4) {
                            None => None,
                            Some((s5, l_end)) => {
                                let counter = SpecValue::Temporary(var.value);
                                let step = SpecValue::Temporary(next.value);
                                let s6 = add_block(
                                    assign_instr(s5, counter, IrType::Word, SpecInstr::Copy(start)),
                                    l_cond,
                                );
                                match new_temporary(s6) {
                                    None => None,
                                    Some((s7, in_range)) => match new_temporary(s7) {
                                        None => None,
                                        Some((s8, a)) => match new_temporary(s8) {
                                            None => None,
                                            Some((s9, b)) => {
                                                let s10 = assign_instr(
                                                    assign_instr(
                                                        assign_instr(
                                                            s9,
                                                            a,
                                                            IrType::Word,
                                                            SpecInstr::Cmp(IrType::Word, IrCmp::Sge, counter, start),
                                                        ),
                                                        b,
                                                        IrType::Word,
                                                        SpecInstr::Cmp(IrType::Word, IrCmp::Slt, counter, stop),
                                                    ),
                                                    in_range,
                                                    IrType::Word,
                                                    SpecInstr::Cmp(IrType::Word, IrCmp::Eq, a, b),
                                                );
                                                let s11 = add_block(
                                                    add_instr(s10, SpecInstr::Jnz(in_range, l_body, l_end)),
                                                    l_body,
                                                );
                                                match compile_statements(s11, body) {
                                                    None => None,
                                                    Some(s12) => {
                                                        let s13 = assign_instr(
                                                            s12,
                                                            step,
                                                            IrType::Word,
                                                            SpecInstr::Add(step, SpecValue::Const(1)),
                                                        );
                                                        Some(add_block(add_instr(s13, SpecInstr::Jmp(l_cond)), l_end))
                                                    },
                                                }
                                            },
                                        },
                                    },
                                }
                            },
                        },
                    },
                },
            },
        },
        _ => None,
    }
}

/// What compiling the statements `b` in order gives.
pub open spec fn compile_statements(st: QbeState, b: Seq<SpecStatement>) -> Option<QbeState>
    decreases b,
{
    if b.len() == 0 {
        Some(st)
    } else {
        match compile_statements(st, b.drop_last()) {
            None => None,
            Some(s1) => compile_statement(s1, b.last()),
        }
    }
}

/// The state of a compiler that has only opened the block `start`.
pub open spec fn initial_state() -> QbeState {
    QbeState { blocks: seq![SpecBlock { label: "start"@, items: Seq::empty() }], temps: 0, labels: 0 }
}

/// The blocks of `main` for the program `b`: its statements' code, then
/// `ret 0`; `None` where the compiler stops.
pub open spec fn compile_main(b: Seq<SpecStatement>) -> Option<Seq<SpecBlock>> {
    match compile_statements(initial_state(), b) {
        None => None,
        Some(st) => Some(add_instr(st, SpecInstr::Ret(Some(SpecValue::Const(0)))).blocks),
    }
}

/// `m` is the module of the program whose `main` has the blocks `blocks`:
/// the exported function `main`, without parameters, returning a word, and
/// the private data definition `fmt`, the bytes of `"%d\n"`.
pub open spec fn main_module(m: IrModule, blocks: Seq<SpecBlock>) -> bool {
    &&& m.functions@.len() == 1
    &&& m.functions@[0].exported
    &&& m.functions@[0].name@ == "main"@
    &&& m.functions@[0].arguments@.len() == 0
    &&& m.functions@[0].return_ty == Some(IrType::Word)
    &&& blocks_model(m.functions@[0].blocks@) == blocks
    &&& m.data@.len() == 1
    &&& !m.data@[0].exported
    &&& m.data@[0].name@ == "fmt"@
    &&& m.data@[0].align is None
    &&& m.data@[0].items@.len() == 1
    &&& m.data@[0].items@[0].0 == IrType::Byte
    &&& m.data@[0].items@[0].1 matches IrDataItem::Str(s) && s@ == "%d\n"@
}

/// The compiler: the blocks of `main` so far, the last one being the one
/// that instructions go to, and the counts of the temporaries and jump
/// labels it has named.
pub struct Compiler {
    blocks: Vec<IrBlock>,
    temporary_variable_count: u64,
    jump_label_count: u64,
}

impl Compiler {
    pub closed spec fn state(self) -> QbeState {
        QbeState {
            blocks: blocks_model(self.blocks@),
            temps: self.temporary_variable_count as nat,
            labels: self.jump_label_count as nat,
        }
    }

    pub closed spec fn wf(self) -> bool {
        self.blocks@.len() > 0
    }

    /// Appends `s` to the last block.
    fn push_statement(&mut self, s: IrStatement)
        requires
            old(self).wf(),
        ensures
            final(self).wf(),
            final(self).state() == append(old(self).state(), s.model()),
    {
        let ghost before = self.state();
        let mut last = self.blocks.pop().unwrap();
        let ghost items = last.items@;
        last.items.push(s);
        assert(statements_model(last.items@) =~= statements_model(items).push(s.model()));
        self.blocks.push(last);
        assert(blocks_model(self.blocks@) =~= before.blocks.update(
            before.blocks.len() - 1,
            SpecBlock { label: before.blocks.last().label, items: before.blocks.last().items.push(s.model()) },
        ));
        assert(self.state() =~= append(before, s.model()));
    }

    /// Appends `i`, run for its effect, to the last block.
    fn add_instr(&mut self, i: IrInstr)
        requires
            old(self).wf(),
        ensures
            final(self).wf(),
            final(self).state() == add_instr(old(self).state(), i.model()),
    {
        self.push_statement(IrStatement::Volatile(i));
    }

    /// Appends to the last block `i`, whose result `v` of type `t` receives.
    fn assign_instr(&mut self, v: IrValue, t: IrType, i: IrInstr)
        requires
            old(self).wf(),
        ensures
            final(self).wf(),
            final(self).state() == assign_instr(old(self).state(), v.model(), t, i.model()),
    {
        self.push_statement(IrStatement::Assign(v, t, i));
    }

    /// Starts a new, empty block labelled `name`.
    fn add_block(&mut self, name: String)
        ensures
            final(self).wf(),
            final(self).state() == add_block(old(self).state(), name@),
    {
        let block = IrBlock { label: name, items: Vec::new() };
        assert(statements_model(block.items@) =~= Seq::<SpecIrStatement>::empty());
        self.blocks.push(block);
        assert(blocks_model(self.blocks@) =~= blocks_model(old(self).blocks@).push(block.model()));
        assert(self.state() =~= add_block(old(self).state(), name@));
    }

    /// Names a new jump label; `None` when the count would overflow.
    fn get_new_jump_label(&mut self) -> (r: Option<String>)
        ensures
            final(self).wf() == old(self).wf(),
            match r {
                Some(l) => new_jump_label(old(self).state()) == Some((final(self).state(), l@)),
                None => new_jump_label(old(self).state()) is None && *final(self) == *old(self),
            },
    {
        if self.jump_label_count == u64::MAX {
            return None;
        }
        let mut temp = string_from_str("b");
        let n = natural_string(self.jump_label_count);
        push_str(&mut temp, n.as_str());
        assert(temp@ =~= jump_label(self.jump_label_count as nat));
        self.jump_label_count = self.jump_label_count + 1;
        assert(self.state() =~= new_jump_label(old(self).state()).unwrap().0);
        Some(temp)
    }

    /// Names a new temporary; `None` when the count would overflow.
    fn get_temporary_variable(&mut self) -> (r: Option<IrValue>)
        ensures
            final(self).wf() == old(self).wf(),
            match r {
                Some(v) => new_temporary(old(self).state()) == Some((final(self).state(), v.model())),
                None => new_temporary(old(self).state()) is None && *final(self) == *old(self),
            },
    {
        if self.temporary_variable_count == u64::MAX {
            return None;
        }
        let mut temp = string_from_str("t");
        let n = natural_string(self.temporary_variable_count);
        push_str(&mut temp, n.as_str());
        assert(temp@ =~= temporary_name(self.temporary_variable_count as nat));
        self.temporary_variable_count = self.temporary_variable_count + 1;
        assert(self.state() =~= new_temporary(old(self).state()).unwrap().0);
        Some(IrValue::Temporary(temp))
    }
}

impl Compiler {
    /// Compiles `expr` and gives the value that holds its result; `None`
    /// where the compiler stops (see `compile_expression`).
    fn compile_expression(&mut self, expr: &Expression) -> (r: Option<IrValue>)
        requires
            old(self).wf(),
        ensures
            final(self).wf(),
            match r {
                Some(v) => compile_expression(old(self).state(), expr.model()) == Some(
                    (final(self).state(), v.model()),
                ),
                None => compile_expression(old(self).state(), expr.model()) is None,
            },
        decreases expr,
    {
        match expr {
            Expression::IntegerLiteral(literal) => Some(IrValue::Const(literal.value as u64)),
            Expression::Identifier(ident) => Some(IrValue::Temporary(ident.value.clone())),
            Expression::Infix(infix) => {
                let temp = match self.get_temporary_variable() {
                    Some(t) => t,
                    None => {
                        return None;
                    },
                };
                let lhs = match self.compile_expression(&infix.left) {
                    Some(v) => v,
                    None => {
                        return None;
                    },
                };
                let rhs = match self.compile_expression(&infix.right) {
                    Some(v) => v,
                    None => {
                        return None;
                    },
                };
                let instruction = match infix.operator.token_type {
                    TokenType::Plus => IrInstr::Add(lhs, rhs),
                    TokenType::Minus => IrInstr::Sub(lhs, rhs),
                    TokenType::Divide => IrInstr::Div(lhs, rhs),
                    TokenType::Multiply => IrInstr::Mul(lhs, rhs),
                    TokenType::Modulo => IrInstr::Rem(lhs, rhs),
                    TokenType::Equal => IrInstr::Cmp(IrType::Word, IrCmp::Eq, lhs, rhs),
                    TokenType::NotEqual => IrInstr::Cmp(IrType::Word, IrCmp::Ne, lhs, rhs),
                    TokenType::Greater => IrInstr::Cmp(IrType::Word, IrCmp::Sgt, lhs, rhs),
                    TokenType::GreaterEqual => IrInstr::Cmp(IrType::Word, IrCmp::Sge, lhs, rhs),
                    TokenType::Lesser => IrInstr::Cmp(IrType::Word, IrCmp::Slt, lhs, rhs),
                    TokenType::LesserEqual => IrInstr::Cmp(IrType::Word, IrCmp::Sle, lhs, rhs),
                    _ => {
                        return None;
                    },
                };
                self.assign_instr(temp.duplicate(), IrType::Word, instruction);
                Some(temp)
            },
            Expression::Prefix(prefix) => {
                let temp = match self.get_temporary_variable() {
                    Some(t) => t,
                    None => {
                        return None;
                    },
                };
                let rhs = match self.compile_expression(&prefix.right) {
                    Some(v) => v,
                    None => {
                        return None;
                    },
                };
                let instruction = match prefix.operator.token_type {
                    TokenType::Plus => IrInstr::Copy(rhs),
                    TokenType::Minus => IrInstr::Sub(IrValue::Const(0), rhs),
                    TokenType::Not => IrInstr::Cmp(IrType::Word, IrCmp::Ne, rhs, IrValue::Const(1)),
                    _ => {
                        return None;
                    },
                };
                self.assign_instr(temp.duplicate(), IrType::Word, instruction);
                Some(temp)
            },
            Expression::FunctionCall(call) => self.compile_call(call),
            _ => None,
        }
    }

    /// Compiles a call of `print` with one argument: a call of `printf` with
    /// the format `fmt` and the argument's value; the call's value is 0.
    fn compile_call(&mut self, call: &FunctionCallExpression) -> (r: Option<IrValue>)
        requires
            old(self).wf(),
        ensures
            final(self).wf(),
            match r {
                Some(v) => compile_expression(
                    old(self).state(),
                    Expression::FunctionCall(Box::new(*call)).model(),
                ) == Some((final(self).state(), v.model())),
                None => compile_expression(
                    old(self).state(),
                    Expression::FunctionCall(Box::new(*call)).model(),
                ) is None,
            },
        decreases call,
    {
        if !(str_eq(call.identifier.value.as_str(), "print") && call.arguments.arguments.len() == 1) {
            return None;
        }
        let val = match self.compile_expression(&call.arguments.arguments[0]) {
            Some(v) => v,
            None => {
                return None;
            },
        };
        let fmt_ptr = IrValue::Global(string_from_str("fmt"));
        let ghost vm = val.model();
        let args = vec![(IrType::Long, fmt_ptr), (IrType::Word, val)];
        assert(crate::ir::arguments_model(args@) =~= seq![
            (IrType::Long, SpecValue::Global("fmt"@)),
            (IrType::Word, vm),
        ]);
        self.add_instr(IrInstr::Call(string_from_str("printf"), args, None));
        Some(IrValue::Const(0))
    }
}

impl Compiler {
    /// Compiles `stm`; `false` where the compiler stops (see
    /// `compile_statement`).
    fn compile_statement(&mut self, stm: &Statement) -> (r: bool)
        requires
            old(self).wf(),
        ensures
            final(self).wf(),
            r == compile_statement(old(self).state(), stm.model()) is Some,
            r ==> final(self).state() == compile_statement(old(self).state(), stm.model()).unwrap(),
        decreases stm,
    {
        match stm {
            Statement::Expression(expr) => self.compile_expression(&expr.expression).is_some(),
            Statement::Assign(assignment) => {
                let value = match self.compile_expression(&assignment.value) {
                    Some(v) => v,
                    None => {
                        return false;
                    },
                };
                self.assign_instr(
                    IrValue::Temporary(assignment.variable.value.clone()),
                    IrType::Word,
                    IrInstr::Copy(value),
                );
                true
            },
            Statement::If(if_stmt) => self.compile_if(if_stmt),
            Statement::While(while_stmt) => self.compile_while(while_stmt),
            Statement::ForLoop(for_stmt) => self.compile_for(for_stmt),
            _ => false,
        }
    }

    /// Compiles the statements of `block` in order; `false` where the
    /// compiler stops.
    fn compile_block(&mut self, block: &BlockStatement) -> (r: bool)
        requires
            old(self).wf(),
        ensures
            final(self).wf(),
            r == compile_statements(old(self).state(), block.model()) is Some,
            r ==> final(self).state() == compile_statements(old(self).state(), block.model()).unwrap(),
        decreases block,
    {
        let ghost b = block.model();
        let ghost st = self.state();
        let mut i: usize = 0;
        assert(b.take(0) =~= Seq::<SpecStatement>::empty());
        while i < block.body.len()
            invariant
                i <= block.body.len(),
                b == block.model(),
                st == old(self).state(),
                self.wf(),
                compile_statements(st, b.take(i as int)) == Some(self.state()),
            decreases block.body.len() - i,
        {
            assert(b.take(i + 1).drop_last() =~= b.take(i as int));
            if !self.compile_statement(&block.body[i]) {
                proof {
                    lemma_compile_stops(st, b, i + 1);
                }
                return false;
            }
            i = i + 1;
        }
        assert(b.take(block.body.len() as int) =~= b);
        true
    }
}

impl Compiler {
    /// Compiles an `if`: the condition, a jump to the consequence where it is
    /// not zero and to the alternative where it is, each ending with a jump
    /// to the block after them.
    fn compile_if(&mut self, stm: &IfStatement) -> (r: bool)
        requires
            old(self).wf(),
        ensures
            final(self).wf(),
            r == compile_statement(old(self).state(), Statement::If(Box::new(*stm)).model()) is Some,
            r ==> final(self).state() == compile_statement(
                old(self).state(),
                Statement::If(Box::new(*stm)).model(),
            ).unwrap(),
        decreases stm,
    {
        let expr = match self.compile_expression(&stm.condition) {
            Some(v) => v,
            None => {
                return false;
            },
        };
        let consequence = match self.get_new_jump_label() {
            Some(l) => l,
            None => {
                return false;
            },
        };
        let alternative = match self.get_new_jump_label() {
            Some(l) => l,
            None => {
                return false;
            },
        };
        let end = match self.get_new_jump_label() {
            Some(l) => l,
            None => {
                return false;
            },
        };
        self.add_instr(IrInstr::Jnz(expr, consequence.clone(), alternative.clone()));
        self.add_block(consequence);
        if !self.compile_block(&stm.consequence) {
            return false;
        }
        self.add_instr(IrInstr::Jmp(end.clone()));
        self.add_block(alternative);
        if !self.compile_block(&stm.alternitive) {
            return false;
        }
        self.add_instr(IrInstr::Jmp(end.clone()));
        self.add_block(end);
        true
    }

    /// Compiles a `while`: a block that tests the condition and jumps to the
    /// body where it is not zero and past it where it is; the body ends with
    /// a jump back to the test.
    fn compile_while(&mut self, while_stmt: &WhileStatement) -> (r: bool)
        requires
            old(self).wf(),
        ensures
            final(self).wf(),
            r == compile_statement(old(self).state(), Statement::While(Box::new(*while_stmt)).model())
                is Some,
            r ==> final(self).state() == compile_statement(
                old(self).state(),
                Statement::While(Box::new(*while_stmt)).model(),
            ).unwrap(),
        decreases while_stmt,
    {
        let cond_start = match self.get_new_jump_label() {
            Some(l) => l,
            None => {
                return false;
            },
        };
        let body = match self.get_new_jump_label() {
            Some(l) => l,
            None => {
                return false;
            },
        };
        let end = match self.get_new_jump_label() {
            Some(l) => l,
            None => {
                return false;
            },
        };
        self.add_block(cond_start.clone());
        let expr = match self.compile_expression(&while_stmt.condition) {
            Some(v) => v,
            None => {
                return false;
            },
        };
        self.add_instr(IrInstr::Jnz(expr, body.clone(), end.clone()));
        self.add_block(body);
        if !self.compile_block(&while_stmt.body) {
            return false;
        }
        self.add_instr(IrInstr::Jmp(cond_start));
        self.add_block(end);
        true
    }

    /// Compiles a `for`: the counter starts at the initial value; a block
    /// tests that it is at least the initial value and below the end value
    /// and jumps to the body or past it; the body ends by adding one to the
    /// stepped variable and jumping back to the test.
    fn compile_for(&mut self, for_stm: &ForLoopStatement) -> (r: bool)
        requires
            old(self).wf(),
        ensures
            final(self).wf(),
            r == compile_statement(old(self).state(), Statement::ForLoop(Box::new(*for_stm)).model())
                is Some,
            r ==> final(self).state() == compile_statement(
                old(self).state(),
                Statement::ForLoop(Box::new(*for_stm)).model(),
            ).unwrap(),
        decreases for_stm,
    {
        let start = match self.compile_expression(&for_stm.initial_value) {
            Some(v) => v,
            None => {
                return false;
            },
        };
        let end = match self.compile_expression(&for_stm.end_value) {
            Some(v) => v,
            None => {
                return false;
            },
        };
        let cond_variable = IrValue::Temporary(for_stm.variable.value.clone());
        let next_variable = IrValue::Temporary(for_stm.next_variable.value.clone());
        let cond_block = match self.get_new_jump_label() {
            Some(l) => l,
            None => {
                return false;
            },
        };
        let body = match self.get_new_jump_label() {
            Some(l) => l,
            None => {
                return false;
            },
        };
        let finish = match self.get_new_jump_label() {
            Some(l) => l,
            None => {
                return false;
            },
        };
        self.assign_instr(cond_variable.duplicate(), IrType::Word, IrInstr::Copy(start.duplicate()));
        self.add_block(cond_block.clone());
        let end_le_start = match self.get_temporary_variable() {
            Some(t) => t,
            None => {
                return false;
            },
        };
        let a = match self.get_temporary_variable() {
            Some(t) => t,
            None => {
                return false;
            },
        };
        let b = match self.get_temporary_variable() {
            Some(t) => t,
            None => {
                return false;
            },
        };
        self.assign_instr(
            a.duplicate(),
            IrType::Word,
            IrInstr::Cmp(IrType::Word, IrCmp::Sge, cond_variable.duplicate(), start),
        );
        self.assign_instr(
            b.duplicate(),
            IrType::Word,
            IrInstr::Cmp(IrType::Word, IrCmp::Slt, cond_variable, end),
        );
        self.assign_instr(
            end_le_start.duplicate(),
            IrType::Word,
            IrInstr::Cmp(IrType::Word, IrCmp::Eq, a, b),
        );
        self.add_instr(IrInstr::Jnz(end_le_start, body.clone(), finish.clone()));
        self.add_block(body);
        if !self.compile_block(&for_stm.body) {
            return false;
        }
        self.assign_instr(
            next_variable.duplicate(),
            IrType::Word,
            IrInstr::Add(next_variable, IrValue::Const(1)),
        );
        self.add_instr(IrInstr::Jmp(cond_block));
        self.add_block(finish);
        true
    }
}

impl Compiler {
    /// Compiles a program to a module: the exported function `main`, whose
    /// blocks run the program's statements and return 0, and the data
    /// definition `fmt`; `None` where the compiler stops (see
    /// `compile_statement`).
    pub fn compile_checked(program_root: ProgramRoot) -> (r: Option<IrModule>)
        ensures
            match r {
                Some(m) => compile_main(program_root.model()) is Some && main_module(
                    m,
                    compile_main(program_root.model()).unwrap(),
                ),
                None => compile_main(program_root.model()) is None,
            },
    {
        let mut compiler = Compiler {
            blocks: Vec::new(),
            temporary_variable_count: 0,
            jump_label_count: 0,
        };
        compiler.add_block(string_from_str("start"));
        assert(compiler.state().blocks =~= initial_state().blocks);
        let ghost b = program_root.model();
        let mut i: usize = 0;
        assert(b.take(0) =~= Seq::<SpecStatement>::empty());
        while i < program_root.0.body.len()
            invariant
                i <= program_root.0.body.len(),
                b == program_root.model(),
                compiler.wf(),
                compile_statements(initial_state(), b.take(i as int)) == Some(compiler.state()),
            decreases program_root.0.body.len() - i,
        {
            assert(b.take(i + 1).drop_last() =~= b.take(i as int));
            if !compiler.compile_statement(&program_root.0.body[i]) {
                proof {
                    lemma_compile_stops(initial_state(), b, i + 1);
                }
                return None;
            }
            i = i + 1;
        }
        assert(b.take(program_root.0.body.len() as int) =~= b);
        compiler.add_instr(IrInstr::Ret(Some(IrValue::Const(0))));
        let main = IrFunction {
            exported: true,
            name: string_from_str("main"),
            arguments: Vec::new(),
            return_ty: Some(IrType::Word),
            blocks: compiler.blocks,
        };
        let fmt = IrData {
            exported: false,
            name: string_from_str("fmt"),
            align: None,
            items: vec![(IrType::Byte, IrDataItem::Str(string_from_str("%d\n")))],
        };
        Some(IrModule { functions: vec![main], data: vec![fmt] })
    }

    /// Compiles a program to a module: the exported function `main`, whose
    /// blocks run the program's statements and return 0, and the data
    /// definition `fmt`.
    pub fn compile(program_root: ProgramRoot) -> (r: IrModule)
        requires
            compile_main(program_root.model()) is Some,
        ensures
            main_module(r, compile_main(program_root.model()).unwrap()),
    {
        match Self::compile_checked(program_root) {
            Some(m) => m,
            None => {
                proof {
                    assert(false);
                }
                IrModule { functions: Vec::new(), data: Vec::new() }
            },
        }
    }
}

/// Once a statement stops the compiler, so do all the statements it is among.
pub proof fn lemma_compile_stops(st: QbeState, b: Seq<SpecStatement>, i: int)
    requires
        0 <= i <= b.len(),
        compile_statements(st, b.take(i)) is None,
    ensures
        compile_statements(st, b) is None,
    decreases b.len() - i,
{
    if i < b.len() {
        assert(b.take(i + 1).drop_last() =~= b.take(i));
        lemma_compile_stops(st, b, i + 1);
    } else {
        assert(b.take(i) =~= b);
    }
}

/// `s` keeps what `st` had emitted: its closed blocks (all but the last) as
/// they were, and its last block with the same label and its statements at
/// the start; `s` may have more blocks after it.
pub open spec fn keeps_emitted(st: QbeState, s: QbeState) -> bool {
    let n = st.blocks.len();
    &&& 0 < n <= s.blocks.len()
    &&& forall|k: int| 0 <= k < n - 1 ==> s.blocks[k] == #[trigger] st.blocks[k]
    &&& s.blocks[n - 1].label == st.blocks[n - 1].label
    &&& st.blocks[n - 1].items.len() <= s.blocks[n - 1].items.len()
    &&& s.blocks[n - 1].items.subrange(0, st.blocks[n - 1].items.len() as int)
        == st.blocks[n - 1].items
}

/// Keeping what was emitted is transitive.
pub proof fn lemma_keeps_emitted_trans(a: QbeState, b: QbeState, c: QbeState)
    requires
        keeps_emitted(a, b),
        keeps_emitted(b, c),
    ensures
        keeps_emitted(a, c),
{
    let n = a.blocks.len();
    let m = b.blocks.len();
    assert forall|k: int| 0 <= k < n - 1 implies c.blocks[k] == #[trigger] a.blocks[k] by {
        assert(c.blocks[k] == b.blocks[k]);
    }
    if m == n {
        let ia = a.blocks[n - 1].items;
        let ib = b.blocks[n - 1].items;
        let ic = c.blocks[n - 1].items;
        assert(ic.subrange(0, ia.len() as int) =~= ib.subrange(0, ia.len() as int));
    } else {
        assert(c.blocks[n - 1] == b.blocks[n - 1]);
    }
}

/// A state keeps what it emitted itself.
pub proof fn lemma_keeps_emitted_refl(st: QbeState)
    requires
        st.blocks.len() > 0,
    ensures
        keeps_emitted(st, st),
{
    assert(st.blocks.last().items.subrange(0, st.blocks.last().items.len() as int)
        =~= st.blocks.last().items);
}

/// Appending a statement, or starting a block, keeps what was emitted.
pub proof fn lemma_steps_keep_emitted(st: QbeState, x: SpecIrStatement, l: Seq<char>)
    requires
        st.blocks.len() > 0,
    ensures
        keeps_emitted(st, append(st, x)),
        append(st, x).blocks.len() == st.blocks.len(),
        keeps_emitted(st, add_block(st, l)),
{
    let items = st.blocks.last().items;
    assert(items.push(x).subrange(0, items.len() as int) =~= items);
    assert(items.subrange(0, items.len() as int) =~= items);
}

/// Compiling an expression stays in the current block: the blocks are as
/// many after it, and what was emitted stays.
pub proof fn lemma_expression_keeps_emitted(st: QbeState, e: SpecExpression)
    requires
        st.blocks.len() > 0,
    ensures
        compile_expression(st, e) matches Some((s, _)) ==> keeps_emitted(st, s)
            && s.blocks.len() == st.blocks.len(),
    decreases e,
{
    lemma_keeps_emitted_refl(st);
    match e {
        SpecExpression::Infix(left, op, right) => {
            if let Some((s1, temp)) = new_temporary(st) {
                lemma_expression_keeps_emitted(s1, *left);
                if let Some((s2, l)) = compile_expression(s1, *left) {
                    lemma_expression_keeps_emitted(s2, *right);
                    if let Some((s3, r)) = compile_expression(s2, *right) {
                        lemma_keeps_emitted_trans(st, s2, s3);
                        if let Some(i) = infix_instr(op.token_type, l, r) {
                            lemma_steps_keep_emitted(s3, SpecIrStatement::Assign(temp, IrType::Word, i), seq![]);
                            lemma_keeps_emitted_trans(st, s3, assign_instr(s3, temp, IrType::Word, i));
                        }
                    }
                }
            }
        },
        SpecExpression::Prefix(op, right) => {
            if let Some((s1, temp)) = new_temporary(st) {
                lemma_expression_keeps_emitted(s1, *right);
                if let Some((s2, r)) = compile_expression(s1, *right) {
                    if let Some(i) = prefix_instr(op.token_type, r) {
                        lemma_steps_keep_emitted(s2, SpecIrStatement::Assign(temp, IrType::Word, i), seq![]);
                        lemma_keeps_emitted_trans(st, s2, assign_instr(s2, temp, IrType::Word, i));
                    }
                }
            }
        },
        SpecExpression::Call(id, args) => {
            if id.value == "print"@ && args.len() == 1 {
                lemma_expression_keeps_emitted(st, args[0]);
                if let Some((s1, v)) = compile_expression(st, args[0]) {
                    lemma_steps_keep_emitted(s1, SpecIrStatement::Volatile(print_call(v)), seq![]);
                    lemma_keeps_emitted_trans(st, s1, add_instr(s1, print_call(v)));
                }
            }
        },
        _ => {},
    }
}

/// Compiling a statement never rewrites what was emitted: the closed blocks
/// stay as they were, and the current block only gains statements at its end
/// before new blocks follow it.
pub proof fn lemma_statement_keeps_emitted(st: QbeState, s: SpecStatement)
    requires
        st.blocks.len() > 0,
    ensures
        compile_statement(st, s) matches Some(r) ==> keeps_emitted(st, r),
    decreases s,
{
    lemma_keeps_emitted_refl(st);
    match s {
        SpecStatement::Expression(e) => {
            lemma_expression_keeps_emitted(st, e);
        },
        SpecStatement::Assign(id, e) => {
            lemma_expression_keeps_emitted(st, e);
            if let Some((s1, v)) = compile_expression(st, e) {
                let x = SpecIrStatement::Assign(SpecValue::Temporary(id.value), IrType::Word, SpecInstr::Copy(v));
                lemma_steps_keep_emitted(s1, x, seq![]);
                lemma_keeps_emitted_trans(st, s1, append(s1, x));
            }
        },
        SpecStatement::If(cond, cons, alt) => {
            lemma_expression_keeps_emitted(st, cond);
            if let Some((s1, v)) = compile_expression(st, cond) {
                if let Some((s2, l_cons)) = new_jump_label(s1) {
                    if let Some((s3, l_alt)) = new_jump_label(s2) {
                        if let Some((s4, l_end)) = new_jump_label(s3) {
                            assert(s4.blocks == s1.blocks);
                            let j = SpecIrStatement::Volatile(SpecInstr::Jnz(v, l_cons, l_alt));
                            lemma_steps_keep_emitted(s4, j, l_cons);
                            lemma_steps_keep_emitted(append(s4, j), j, l_cons);
                            let s5 = add_block(add_instr(s4, SpecInstr::Jnz(v, l_cons, l_alt)), l_cons);
                            lemma_keeps_emitted_trans(st, s4, append(s4, j));
                            lemma_keeps_emitted_trans(st, append(s4, j), s5);
                            lemma_statements_keeps_emitted(s5, cons);
                            if let Some(s6) = compile_statements(s5, cons) {
                                lemma_keeps_emitted_trans(st, s5, s6);
                                let k = SpecIrStatement::Volatile(SpecInstr::Jmp(l_end));
                                lemma_steps_keep_emitted(s6, k, l_alt);
                                lemma_steps_keep_emitted(append(s6, k), k, l_alt);
                                let s7 = add_block(add_instr(s6, SpecInstr::Jmp(l_end)), l_alt);
                                lemma_keeps_emitted_trans(st, s6, append(s6, k));
                                lemma_keeps_emitted_trans(st, append(s6, k), s7);
                                lemma_statements_keeps_emitted(s7, alt);
                                if let Some(s8) = compile_statements(s7, alt) {
                                    lemma_keeps_emitted_trans(st, s7, s8);
                                    lemma_steps_keep_emitted(s8, k, l_end);
                                    lemma_steps_keep_emitted(append(s8, k), k, l_end);
                                    lemma_keeps_emitted_trans(st, s8, append(s8, k));
                                    lemma_keeps_emitted_trans(st, append(s8, k), add_block(append(s8, k), l_end));
                                }
                            }
                        }
                    }
                }
            }
        },
        SpecStatement::While(cond, body) => {
            if let Some((s1, l_cond)) = new_jump_label(st) {
                if let Some((s2, l_body)) = new_jump_label(s1) {
                    if let Some((s3, l_end)) = new_jump_label(s2) {
                        assert(s3.blocks == st.blocks);
                        let s3b = add_block(s3, l_cond);
                        lemma_steps_keep_emitted(s3, SpecIrStatement::Volatile(SpecInstr::Jmp(l_end)), l_cond);
                        lemma_expression_keeps_emitted(s3b, cond);
                        if let Some((s4, v)) = compile_expression(s3b, cond) {
                            lemma_keeps_emitted_trans(st, s3b, s4);
                            let j = SpecIrStatement::Volatile(SpecInstr::Jnz(v, l_body, l_end));
                            lemma_steps_keep_emitted(s4, j, l_body);
                            lemma_steps_keep_emitted(append(s4, j), j, l_body);
                            let s5 = add_block(append(s4, j), l_body);
                            lemma_keeps_emitted_trans(st, s4, append(s4, j));
                            lemma_keeps_emitted_trans(st, append(s4, j), s5);
                            lemma_statements_keeps_emitted(s5, body);
                            if let Some(s6) = compile_statements(s5, body) {
                                lemma_keeps_emitted_trans(st, s5, s6);
                                let k = SpecIrStatement::Volatile(SpecInstr::Jmp(l_cond));
                                lemma_steps_keep_emitted(s6, k, l_end);
                                lemma_steps_keep_emitted(append(s6, k), k, l_end);
                                lemma_keeps_emitted_trans(st, s6, append(s6, k));
                                lemma_keeps_emitted_trans(st, append(s6, k), add_block(append(s6, k), l_end));
                            }
                        }
                    }
                }
            }
        },
        SpecStatement::ForLoop(var, init, end, body, next) => {
            lemma_expression_keeps_emitted(st, init);
            if let Some((s1, start)) = compile_expression(st, init) {
                lemma_expression_keeps_emitted(s1, end);
                if let Some((s2, stop)) = compile_expression(s1, end) {
                    lemma_keeps_emitted_trans(st, s1, s2);
                    if let Some((s3, l_cond)) = new_jump_label(s2) {
                        if let Some((s4, l_body)) = new_jump_label(s3) {
                            if let Some((s5, l_end)) = new_jump_label(s4) {
                                assert(s5.blocks == s2.blocks);
                                let counter = SpecValue::Temporary(var.value);
                                let step = SpecValue::Temporary(next.value);
                                let c = SpecIrStatement::Assign(counter, IrType::Word, SpecInstr::Copy(start));
                                lemma_steps_keep_emitted(s5, c, l_cond);
                                lemma_steps_keep_emitted(append(s5, c), c, l_cond);
                                let s6 = add_block(append(s5, c), l_cond);
                                lemma_keeps_emitted_trans(st, s5, append(s5, c));
                                lemma_keeps_emitted_trans(st, append(s5, c), s6);
                                if let Some((s7, in_range)) = new_temporary(s6) {
                                    if let Some((s8, a)) = new_temporary(s7) {
                                        if let Some((s9, b)) = new_temporary(s8) {
                                            assert(s9.blocks == s6.blocks);
                                            let x1 = SpecIrStatement::Assign(a, IrType::Word, SpecInstr::Cmp(IrType::Word, IrCmp::Sge, counter, start));
                                            let x2 = SpecIrStatement::Assign(b, IrType::Word, SpecInstr::Cmp(IrType::Word, IrCmp::Slt, counter, stop));
                                            let x3 = SpecIrStatement::Assign(in_range, IrType::Word, SpecInstr::Cmp(IrType::Word, IrCmp::Eq, a, b));
                                            let x4 = SpecIrStatement::Volatile(SpecInstr::Jnz(in_range, l_body, l_end));
                                            let t1 = append(s9, x1);
                                            let t2 = append(t1, x2);
                                            let t3 = append(t2, x3);
                                            let t4 = append(t3, x4);
                                            let s11 = add_block(t4, l_body);
                                            lemma_steps_keep_emitted(s9, x1, l_body);
                                            lemma_steps_keep_emitted(t1, x2, l_body);
                                            lemma_steps_keep_emitted(t2, x3, l_body);
                                            lemma_steps_keep_emitted(t3, x4, l_body);
                                            lemma_steps_keep_emitted(t4, x4, l_body);
                                            lemma_keeps_emitted_trans(st, s9, t1);
                                            lemma_keeps_emitted_trans(st, t1, t2);
                                            lemma_keeps_emitted_trans(st, t2, t3);
                                            lemma_keeps_emitted_trans(st, t3, t4);
                                            lemma_keeps_emitted_trans(st, t4, s11);
                                            lemma_statements_keeps_emitted(s11, body);
                                            if let Some(s12) = compile_statements(s11, body) {
                                                lemma_keeps_emitted_trans(st, s11, s12);
                                                let x5 = SpecIrStatement::Assign(step, IrType::Word, SpecInstr::Add(step, SpecValue::Const(1)));
                                                let x6 = SpecIrStatement::Volatile(SpecInstr::Jmp(l_cond));
                                                let s13 = append(s12, x5);
                                                let s14 = append(s13, x6);
                                                lemma_steps_keep_emitted(s12, x5, l_end);
                                                lemma_steps_keep_emitted(s13, x6, l_end);
                                                lemma_steps_keep_emitted(s14, x6, l_end);
                                                lemma_keeps_emitted_trans(st, s12, s13);
                                                lemma_keeps_emitted_trans(st, s13, s14);
                                                lemma_keeps_emitted_trans(st, s14, add_block(s14, l_end));
                                            }
                                        }
                                    }
                                }
                            }
                        }
                    }
                }
            }
        },
        _ => {},
    }
}

/// Compiling statements in order never rewrites what was emitted.
pub proof fn lemma_statements_keeps_emitted(st: QbeState, b: Seq<SpecStatement>)
    requires
        st.blocks.len() > 0,
    ensures
        compile_statements(st, b) matches Some(r) ==> keeps_emitted(st, r),
    decreases b,
{
    if b.len() == 0 {
        lemma_keeps_emitted_refl(st);
    } else {
        lemma_statements_keeps_emitted(st, b.drop_last());
        if let Some(s1) = compile_statements(st, b.drop_last()) {
            lemma_statement_keeps_emitted(s1, b.last());
            if let Some(s2) = compile_statement(s1, b.last()) {
                lemma_keeps_emitted_trans(st, s1, s2);
            }
        }
    }
}

} // verus!
