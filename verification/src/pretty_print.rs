//! The pretty printer: writes a syntax tree back as source text, with every
//! operation in parentheses and four spaces of indentation per block.
use vstd::prelude::*;
use crate::ast::{
    AssignStatement, BlockStatement, BooleanLiteral, Expression, ExpressionStatement,
    ForLoopStatement, FunctionCallExpression, Identifier, IfStatement, InfixExpression,
    IntegerLiteral, PrefixExpression, ProcedureStatement, ProgramRoot, ReturnStatement,
    SpecExpression, SpecIdentifier, SpecStatement, Statement, StringLiteral, WhileStatement,
};
use crate::text::{push_char, push_str, string_from_str};
use crate::token::TokenType;
use crate::visitor::{dispatches_infix, dispatches_prefix, Visitor};

verus! {

/// The character of the decimal digit `d`.
pub open spec fn digit_char(d: int) -> char {
    if d == 0 {
        '0'
    } else if d == 1 {
        '1'
    } else if d == 2 {
        '2'
    } else if d == 3 {
        '3'
    } else if d == 4 {
        '4'
    } else if d == 5 {
        '5'
    } else if d == 6 {
        '6'
    } else if d == 7 {
        '7'
    } else if d == 8 {
        '8'
    } else {
        '9'
    }
}

/// The decimal digits of `n`, without leading zeros.
pub open spec fn natural_digits(n: nat) -> Seq<char>
    decreases n,
{
    if n < 10 {
        seq![digit_char(n as int)]
    } else {
        natural_digits(n / 10).push(digit_char(n as int % 10))
    }
}

/// `v` in decimal, with a `-` in front when it is negative.
pub open spec fn decimal(v: int) -> Seq<char> {
    if v < 0 {
        seq!['-'] + natural_digits((-v) as nat)
    } else {
        natural_digits(v as nat)
    }
}

fn digit(d: u64) -> (r: char)
    requires
        d < 10,
    ensures
        r == digit_char(d as int),
{
    if d == 0 {
        '0'
    } else if d == 1 {
        '1'
    } else if d == 2 {
        '2'
    } else if d == 3 {
        '3'
    } else if d == 4 {
        '4'
    } else if d == 5 {
        '5'
    } else if d == 6 {
        '6'
    } else if d == 7 {
        '7'
    } else if d == 8 {
        '8'
    } else {
        '9'
    }
}

fn push_digits(buffer: &mut String, n: u64)
    ensures
        final(buffer)@ == old(buffer)@ + natural_digits(n as nat),
    decreases n,
{
    if n >= 10 {
        push_digits(buffer, n / 10);
    }
    push_char(buffer, digit(n % 10));
    proof {
        if n >= 10 {
            assert(old(buffer)@ + natural_digits(n as nat) =~= old(buffer)@ + natural_digits(
                (n / 10) as nat,
            ) + seq![digit_char(n as int % 10)]);
        } else {
            assert(old(buffer)@ + natural_digits(n as nat) =~= old(buffer)@.push(
                digit_char(n as int),
            ));
        }
    }
}

/// `n` in decimal.
pub fn natural_string(n: u64) -> (r: String)
    ensures
        r@ == natural_digits(n as nat),
{
    let mut s = String::new();
    push_digits(&mut s, n);
    assert(s@ =~= natural_digits(n as nat));
    s
}

/// `v` in decimal, with a `-` in front when it is negative.
pub fn decimal_string(v: i64) -> (r: String)
    ensures
        r@ == decimal(v as int),
{
    let mut s = String::new();
    if v < 0 {
        push_char(&mut s, '-');
        let m: i128 = -(v as i128);
        push_digits(&mut s, m as u64);
    } else {
        push_digits(&mut s, v as u64);
    }
    s
}

/// `n` spaces.
pub open spec fn spaces(n: nat) -> Seq<char> {
    Seq::new(n, |i: int| ' ')
}

/// What stands between the operands of an infix operation.
pub open spec fn infix_separator(tt: TokenType) -> Seq<char> {
    match tt {
        TokenType::Plus => " + "@,
        TokenType::Minus => " - "@,
        TokenType::Divide => " / "@,
        TokenType::Multiply => " * "@,
        TokenType::Equal => " == "@,
        TokenType::NotEqual => " != "@,
        TokenType::Greater => " > "@,
        TokenType::GreaterEqual => " >= "@,
        TokenType::Lesser => " < "@,
        _ => " <= "@,
    }
}

/// What opens a prefix operation.
pub open spec fn prefix_opening(tt: TokenType) -> Seq<char> {
    match tt {
        TokenType::Plus => "(+"@,
        TokenType::Not => "(NOT "@,
        _ => "(-"@,
    }
}

/// Whether every operator in `e` is one that the printer knows.
pub open spec fn printable_expression(e: SpecExpression) -> bool
    decreases e,
{
    match e {
        SpecExpression::Prefix(op, right) => dispatches_prefix(op.token_type) && printable_expression(
            *right,
        ),
        SpecExpression::Infix(left, op, right) => dispatches_infix(op.token_type)
            && printable_expression(*left) && printable_expression(*right),
        SpecExpression::Call(_, args) => printable_arguments(args),
        _ => true,
    }
}

/// Whether every operator in `args` is one that the printer knows.
pub open spec fn printable_arguments(args: Seq<SpecExpression>) -> bool
    decreases args,
{
    if args.len() == 0 {
        true
    } else {
        printable_arguments(args.drop_last()) && printable_expression(args.last())
    }
}

/// An expression as text.
pub open spec fn print_expression(e: SpecExpression) -> Seq<char>
    decreases e,
{
    match e {
        SpecExpression::Identifier(i) => i.value,
        SpecExpression::Integer(v, _) => decimal(v as int),
        SpecExpression::Boolean(b, _) => if b {
            "true"@
        } else {
            "false"@
        },
        SpecExpression::Str(s, _) => seq!['"'] + s + seq!['"'],
        SpecExpression::Prefix(op, right) => prefix_opening(op.token_type) + print_expression(*right)
            + seq![')'],
        SpecExpression::Infix(left, op, right) => seq!['('] + print_expression(*left)
            + infix_separator(op.token_type) + print_expression(*right) + seq![')'],
        SpecExpression::Call(name, args) => name.value + seq!['('] + print_arguments(args) + seq![
            ')',
        ],
    }
}

/// Arguments as text, separated by `,`.
pub open spec fn print_arguments(args: Seq<SpecExpression>) -> Seq<char>
    decreases args,
{
    if args.len() == 0 {
        Seq::empty()
    } else if args.len() == 1 {
        print_expression(args[0])
    } else {
        print_arguments(args.drop_last()) + seq![','] + print_expression(args.last())
    }
}

/// Names as text, separated by `,`.
pub open spec fn print_names(names: Seq<SpecIdentifier>) -> Seq<char>
    decreases names.len(),
{
    if names.len() == 0 {
        Seq::empty()
    } else if names.len() == 1 {
        names[0].value
    } else {
        print_names(names.drop_last()) + seq![','] + names.last().value
    }
}

/// How deeply the blocks of `s` nest.
pub open spec fn nesting(s: SpecStatement) -> nat
    decreases s,
{
    match s {
        SpecStatement::Block(b) => 1 + block_nesting(b),
        SpecStatement::If(_, c, a) => 1 + if block_nesting(c) >= block_nesting(a) {
            block_nesting(c)
        } else {
            block_nesting(a)
        },
        SpecStatement::Procedure(_, _, b) => 1 + block_nesting(b),
        SpecStatement::While(_, b) => 1 + block_nesting(b),
        SpecStatement::ForLoop(_, _, _, b, _) => 1 + block_nesting(b),
        _ => 0,
    }
}

/// How deeply the blocks of the statements `b` nest.
pub open spec fn block_nesting(b: Seq<SpecStatement>) -> nat
    decreases b,
{
    if b.len() == 0 {
        0
    } else {
        let rest = block_nesting(b.drop_last());
        let last = nesting(b.last());
        if rest >= last {
            rest
        } else {
            last
        }
    }
}

/// Whether every argument of `call` is printable.
fn arguments_printable(call: &FunctionCallExpression) -> (r: bool)
    ensures
        r == printable_arguments(arguments_model(*call)),
    decreases call,
{
    let ghost m = arguments_model(*call);
    let mut ok = true;
    let mut i: usize = 0;
    assert(m.take(0) =~= Seq::<SpecExpression>::empty());
    while i < call.arguments.arguments.len()
        invariant
            i <= call.arguments.arguments.len(),
            m == arguments_model(*call),
            ok == printable_arguments(m.take(i as int)),
        decreases call.arguments.arguments.len() - i,
    {
        assert(m.take(i + 1).drop_last() =~= m.take(i as int));
        let here = expression_printable(&call.arguments.arguments[i]);
        ok = ok && here;
        i = i + 1;
    }
    assert(m.take(call.arguments.arguments.len() as int) =~= m);
    ok
}

/// Whether every expression in `s` is printable.
pub open spec fn printable_statement(s: SpecStatement) -> bool
    decreases s,
{
    match s {
        SpecStatement::Assign(_, e) => printable_expression(e),
        SpecStatement::Return(e) => printable_expression(e),
        SpecStatement::Expression(e) => printable_expression(e),
        SpecStatement::Block(b) => printable_block(b),
        SpecStatement::If(c, t, e) => printable_expression(c) && printable_block(t) && printable_block(
            e,
        ),
        SpecStatement::Procedure(_, _, b) => printable_block(b),
        SpecStatement::While(c, b) => printable_expression(c) && printable_block(b),
        SpecStatement::ForLoop(_, i, e, b, _) => printable_expression(i) && printable_expression(e)
            && printable_block(b),
    }
}

/// Whether every expression in the statements `b` is printable.
pub open spec fn printable_block(b: Seq<SpecStatement>) -> bool
    decreases b,
{
    if b.len() == 0 {
        true
    } else {
        printable_block(b.drop_last()) && printable_statement(b.last())
    }
}

/// A statement as text, at the indentation level `ind`.
pub open spec fn print_statement(s: SpecStatement, ind: nat) -> Seq<char>
    decreases s,
{
    let pad = spaces(4 * ind);
    match s {
        SpecStatement::Assign(v, e) => pad + v.value + " = "@ + print_expression(e) + seq!['\n'],
        SpecStatement::Return(e) => pad + "return "@ + print_expression(e) + seq!['\n'],
        SpecStatement::Expression(e) => pad + print_expression(e) + seq!['\n'],
        SpecStatement::Block(b) => print_statements(b, ind + 1),
        SpecStatement::If(c, t, e) => pad + "if "@ + print_expression(c) + " then\n"@ + print_statements(t, ind + 1) + (if e.len() > 0 {
            pad + "else\n"@ + print_statements(e, ind + 1)
        } else {
            Seq::empty()
        }) + pad + "endif\n"@,
        SpecStatement::Procedure(name, params, b) => pad + "procedure "@ + name.value + seq!['(']
            + print_names(params) + seq![')'] + print_statements(b, ind + 1) + "endprocedure"@,
        SpecStatement::While(c, b) => pad + "while "@ + print_expression(c) + print_statements(b, ind + 1)
            + pad + "endwhile"@,
        SpecStatement::ForLoop(v, i, e, b, n) => pad + "for "@ + v.value + " = "@ + print_expression(
            i,
        ) + " to "@ + print_expression(e) + print_statements(b, ind + 1) + pad + "next "@ + n.value,
    }
}

/// Statements as text, each at the indentation level `ind`.
pub open spec fn print_statements(b: Seq<SpecStatement>, ind: nat) -> Seq<char>
    decreases b,
{
    if b.len() == 0 {
        Seq::empty()
    } else {
        print_statements(b.drop_last(), ind) + print_statement(b.last(), ind)
    }
}

/// The printer writes each operator so that it reads back as itself: between
/// the operands of an infix operation stands a blank, text that the lexer
/// takes for that same operator, and a blank; a prefix operation opens with
/// `(` and text that the lexer takes for that same operator (`NOT` followed
/// by a blank).
pub proof fn lemma_operators_read_back(tt: TokenType)
    ensures
        dispatches_infix(tt) ==> {
            let sep = infix_separator(tt);
            &&& sep.len() >= 3
            &&& sep[0] == ' '
            &&& sep[sep.len() - 1] == ' '
            &&& crate::lexer::literal_kind(sep.subrange(1, sep.len() - 1)) == tt
        },
        dispatches_prefix(tt) ==> {
            let open = prefix_opening(tt);
            &&& open.len() >= 2
            &&& open[0] == '('
            &&& if tt == TokenType::Not {
                &&& open[open.len() - 1] == ' '
                &&& crate::lexer::literal_kind(open.subrange(1, open.len() - 1)) == tt
            } else {
                crate::lexer::literal_kind(open.subrange(1, open.len() as int)) == tt
            }
        },
{
    reveal_strlit(" + ");
    reveal_strlit(" - ");
    reveal_strlit(" / ");
    reveal_strlit(" * ");
    reveal_strlit(" == ");
    reveal_strlit(" != ");
    reveal_strlit(" > ");
    reveal_strlit(" >= ");
    reveal_strlit(" < ");
    reveal_strlit(" <= ");
    reveal_strlit("(+");
    reveal_strlit("(-");
    reveal_strlit("(NOT ");
    reveal_strlit("NOT");
    reveal_strlit("MOD");
    reveal_strlit("DIV");
    reveal_strlit("AND");
    reveal_strlit("OR");
    if tt == TokenType::Not {
        let w = prefix_opening(tt).subrange(1, 4);
        assert(w =~= "NOT"@);
        assert(w != "MOD"@ && w != "DIV"@ && w != "AND"@) by {
            assert(w[0] != "MOD"@[0] && w[0] != "DIV"@[0] && w[0] != "AND"@[0]);
        }
        assert(w != "OR"@) by {
            assert(w.len() != "OR"@.len());
        }
    } else if tt == TokenType::Plus {
        assert(prefix_opening(tt).subrange(1, 2) =~= seq!['+']);
    } else if tt == TokenType::Minus {
        assert(prefix_opening(tt).subrange(1, 2) =~= seq!['-']);
    }
}

/// A `for` loop prints as `for`, then its start as the assignment of the
/// initial value to the loop variable prints (without its line break), then
/// `to` and the end value, its body one level deeper, and `next` with the
/// name after it: the initial value stands after ` = ` and the end value
/// after ` to `.
pub proof fn lemma_for_prints_its_start(
    v: SpecIdentifier,
    initial: SpecExpression,
    end: SpecExpression,
    body: Seq<SpecStatement>,
    next: SpecIdentifier,
    ind: nat,
)
    ensures
        print_statement(SpecStatement::ForLoop(v, initial, end, body, next), ind) == spaces(4 * ind)
            + "for "@ + print_statement(SpecStatement::Assign(v, initial), 0).drop_last() + " to "@
            + print_expression(end) + print_statements(body, ind + 1) + spaces(4 * ind) + "next "@
            + next.value,
{
    let a = print_statement(SpecStatement::Assign(v, initial), 0);
    assert(spaces(0) =~= Seq::<char>::empty());
    assert(a.drop_last() =~= v.value + " = "@ + print_expression(initial));
    assert(print_statement(SpecStatement::ForLoop(v, initial, end, body, next), ind) =~= spaces(4 * ind)
        + "for "@ + a.drop_last() + " to "@ + print_expression(end) + print_statements(body, ind + 1)
        + spaces(4 * ind) + "next "@ + next.value);
}

/// A member of a block nests no more deeply than the block, and is printable
/// when the block is.
pub proof fn lemma_block_member(b: Seq<SpecStatement>, k: int)
    requires
        0 <= k < b.len(),
    ensures
        nesting(b[k]) <= block_nesting(b),
        printable_block(b) ==> printable_statement(b[k]),
    decreases b.len(),
{
    if k < b.len() - 1 {
        lemma_block_member(b.drop_last(), k);
    }
}

/// An argument is printable when the arguments are.
pub proof fn lemma_argument_member(args: Seq<SpecExpression>, k: int)
    requires
        0 <= k < args.len(),
        printable_arguments(args),
    ensures
        printable_expression(args[k]),
    decreases args.len(),
{
    if k < args.len() - 1 {
        lemma_argument_member(args.drop_last(), k);
    }
}

/// The models of the arguments of a call.
pub open spec fn arguments_model(call: FunctionCallExpression) -> Seq<SpecExpression> {
    Seq::new(
        call.arguments.arguments.len() as nat,
        |k: int| call.arguments.arguments[k].model(),
    )
}

/// Whether every operator in `e` has a printing rule.
fn expression_printable(e: &Expression) -> (r: bool)
    ensures
        r == printable_expression(e.model()),
    decreases e,
{
    match e {
        Expression::Prefix(prefix) => {
            let tt = prefix.operator.token_type;
            let known = tt == TokenType::Plus || tt == TokenType::Not || tt == TokenType::Minus;
            known && expression_printable(&prefix.right)
        },
        Expression::Infix(infix) => {
            let known = match infix.operator.token_type {
                TokenType::Plus | TokenType::Minus | TokenType::Divide | TokenType::Multiply
                | TokenType::Equal | TokenType::NotEqual | TokenType::Greater
                | TokenType::GreaterEqual | TokenType::Lesser | TokenType::LesserEqual => true,
                _ => false,
            };
            known && expression_printable(&infix.left) && expression_printable(&infix.right)
        },
        Expression::FunctionCall(call) => {
            assert(e.model()->Call_1 =~= arguments_model(**call));
            arguments_printable(call)
        },
        _ => true,
    }
}

/// Whether every expression in `s` is printable.
fn statement_printable(s: &Statement) -> (r: bool)
    ensures
        r == printable_statement(s.model()),
    decreases s,
{
    match s {
        Statement::Assign(a) => expression_printable(&a.value),
        Statement::Return(ret) => expression_printable(&ret.expression),
        Statement::Expression(e) => expression_printable(&e.expression),
        Statement::Block(b) => block_printable(b),
        Statement::If(i) => expression_printable(&i.condition) && block_printable(&i.consequence)
            && block_printable(&i.alternitive),
        Statement::Procedure(p) => block_printable(&p.body),
        Statement::While(w) => expression_printable(&w.condition) && block_printable(&w.body),
        Statement::ForLoop(f) => expression_printable(&f.initial_value) && expression_printable(
            &f.end_value,
        ) && block_printable(&f.body),
    }
}

/// Whether every expression in the statements of `b` is printable.
fn block_printable(b: &BlockStatement) -> (r: bool)
    ensures
        r == printable_block(b.model()),
    decreases b,
{
    let ghost m = b.model();
    let mut ok = true;
    let mut i: usize = 0;
    assert(m.take(0) =~= Seq::<SpecStatement>::empty());
    while i < b.body.len()
        invariant
            i <= b.body.len(),
            m == b.model(),
            ok == printable_block(m.take(i as int)),
        decreases b.body.len() - i,
    {
        assert(m.take(i + 1).drop_last() =~= m.take(i as int));
        let here = statement_printable(&b.body[i]);
        ok = ok && here;
        i = i + 1;
    }
    assert(m.take(b.body.len() as int) =~= m);
    ok
}

/// How deeply the blocks of `s` nest; `None` when that does not fit in a
/// `usize`.
fn statement_nesting(s: &Statement) -> (r: Option<usize>)
    ensures
        match r {
            Some(n) => n == nesting(s.model()),
            None => nesting(s.model()) > usize::MAX,
        },
    decreases s,
{
    let inner = match s {
        Statement::Block(b) => block_nesting_of(b),
        Statement::If(i) => match (block_nesting_of(&i.consequence), block_nesting_of(&i.alternitive)) {
            (Some(c), Some(a)) => Some(
                if c >= a {
                    c
                } else {
                    a
                },
            ),
            _ => None,
        },
        Statement::Procedure(p) => block_nesting_of(&p.body),
        Statement::While(w) => block_nesting_of(&w.body),
        Statement::ForLoop(f) => block_nesting_of(&f.body),
        _ => {
            return Some(0);
        },
    };
    match inner {
        Some(n) => if n < usize::MAX {
            Some(n + 1)
        } else {
            None
        },
        None => None,
    }
}

/// How deeply the blocks of the statements of `b` nest; `None` when that does
/// not fit in a `usize`.
fn block_nesting_of(b: &BlockStatement) -> (r: Option<usize>)
    ensures
        match r {
            Some(n) => n == block_nesting(b.model()),
            None => block_nesting(b.model()) > usize::MAX,
        },
    decreases b,
{
    let ghost m = b.model();
    let mut deepest: usize = 0;
    let mut i: usize = 0;
    assert(m.take(0) =~= Seq::<SpecStatement>::empty());
    while i < b.body.len()
        invariant
            i <= b.body.len(),
            m == b.model(),
            deepest == block_nesting(m.take(i as int)),
        decreases b.body.len() - i,
    {
        assert(m.take(i + 1).drop_last() =~= m.take(i as int));
        match statement_nesting(&b.body[i]) {
            Some(n) => {
                if n > deepest {
                    deepest = n;
                }
            },
            None => {
                proof {
                    lemma_block_member(m, i as int);
                }
                return None;
            },
        }
        i = i + 1;
    }
    assert(m.take(b.body.len() as int) =~= m);
    Some(deepest)
}

/// Whether the pretty printer can print `root`: every operator in it has a
/// printing rule, and its indentation fits in a `usize`.
pub fn can_print(root: &ProgramRoot) -> (r: bool)
    ensures
        r == root.printable(),
{
    block_printable(&root.0) && block_nesting_of(&root.0).is_some()
}

/// The printer: the text written so far, and the indentation level of the
/// statements to come.
pub struct PrettyPrinter {
    pub buffer: String,
    pub indentation: usize,
}

impl PrettyPrinter {
    /// An empty printer at level 0.
    pub fn new() -> (r: PrettyPrinter)
        ensures
            r.buffer@ == Seq::<char>::empty(),
            r.indentation == 0,
    {
        PrettyPrinter { buffer: String::new(), indentation: 0 }
    }

    /// Writes the indentation of the current level.
    fn push_indentation(&mut self)
        ensures
            final(self).buffer@ == old(self).buffer@ + spaces(4 * old(self).indentation as nat),
            final(self).indentation == old(self).indentation,
    {
        let mut k: usize = 0;
        while k < self.indentation
            invariant
                k <= self.indentation,
                self.indentation == old(self).indentation,
                self.buffer@ == old(self).buffer@ + spaces(4 * k as nat),
            decreases self.indentation - k,
        {
            push_char(&mut self.buffer, ' ');
            push_char(&mut self.buffer, ' ');
            push_char(&mut self.buffer, ' ');
            push_char(&mut self.buffer, ' ');
            k = k + 1;
            assert(self.buffer@ =~= old(self).buffer@ + spaces(4 * k as nat));
        }
    }

    /// Writes the statements of a block one level deeper.
    fn print_body(&mut self, body: &Vec<Statement>)
        requires
            printable_block((BlockStatement { body: *body }).model()),
            old(self).indentation + 1 + block_nesting((BlockStatement { body: *body }).model())
                <= usize::MAX,
        ensures
            final(self).buffer@ == old(self).buffer@ + print_statements(
                (BlockStatement { body: *body }).model(),
                (old(self).indentation + 1) as nat,
            ),
            final(self).indentation == old(self).indentation,
        decreases body,
    {
        let ghost b = (BlockStatement { body: *body }).model();
        self.indentation = self.indentation + 1;
        let mut i: usize = 0;
        while i < body.len()
            invariant
                i <= body.len(),
                b == (BlockStatement { body: *body }).model(),
                printable_block(b),
                old(self).indentation + 1 + block_nesting(b) <= usize::MAX,
                self.indentation == old(self).indentation + 1,
                self.buffer@ == old(self).buffer@ + print_statements(b.take(i as int), self.indentation as nat),
            decreases body.len() - i,
        {
            proof {
                lemma_block_member(b, i as int);
                assert(b.take(i + 1).drop_last() =~= b.take(i as int));
            }
            self.visit_statement(&body[i]);
            i = i + 1;
        }
        assert(b.take(body.len() as int) =~= b);
        self.indentation = self.indentation - 1;
    }
}

impl Visitor<(), String> for PrettyPrinter {
    /// The printer stays as it is, and gives the operand in parentheses after
    /// the operator.
    open spec fn prefix_gives(
        &self,
        op: TokenType,
        prefix: PrefixExpression,
        right: String,
        after: Self,
        r: String,
    ) -> bool {
        &&& after == *self
        &&& r@ == prefix_opening(op) + right@ + seq![')']
    }

    /// The printer stays as it is, and gives the operands around the operator,
    /// in parentheses.
    open spec fn infix_gives(
        &self,
        op: TokenType,
        infix: InfixExpression,
        left: String,
        right: String,
        after: Self,
        r: String,
    ) -> bool {
        &&& after == *self
        &&& r@ == seq!['('] + left@ + infix_separator(op) + right@ + seq![')']
    }

    open spec fn accepts_program(&self, root: ProgramRoot) -> bool {
        &&& printable_block(root.model())
        &&& self.indentation + block_nesting(root.model()) <= usize::MAX
    }

    open spec fn accepts_expression(&self, e: Expression) -> bool {
        printable_expression(e.model())
    }

    open spec fn accepts_statement(&self, s: Statement) -> bool {
        &&& printable_statement(s.model())
        &&& self.indentation + nesting(s.model()) <= usize::MAX
    }

    fn visit_program_root(&mut self, root: &ProgramRoot)
        ensures
            final(self).buffer@ == old(self).buffer@ + print_statements(
                root.model(),
                old(self).indentation as nat,
            ),
            final(self).indentation == old(self).indentation,
    {
        let ghost b = root.model();
        let mut i: usize = 0;
        while i < root.0.body.len()
            invariant
                i <= root.0.body.len(),
                b == root.model(),
                printable_block(b),
                old(self).indentation + block_nesting(b) <= usize::MAX,
                self.indentation == old(self).indentation,
                self.buffer@ == old(self).buffer@ + print_statements(b.take(i as int), self.indentation as nat),
            decreases root.0.body.len() - i,
        {
            proof {
                lemma_block_member(b, i as int);
                assert(b.take(i + 1).drop_last() =~= b.take(i as int));
            }
            self.visit_statement(&root.0.body[i]);
            i = i + 1;
        }
        assert(b.take(root.0.body.len() as int) =~= b);
    }

    fn visit_expression(&mut self, expression: &Expression) -> (r: String)
        ensures
            r@ == print_expression(expression.model()),
            *final(self) == *old(self),
        decreases expression,
    {
        match expression {
            Expression::Identifier(ident) => {
                let r = self.visit_identifier(ident);
                assert(print_expression(expression.model()) == ident.value@);
                r
            },
            Expression::IntegerLiteral(literal) => self.visit_integer(literal),
            Expression::BooleanLiteral(literal) => self.visit_boolean(literal),
            Expression::StringLiteral(literal) => self.visit_string(literal),
            Expression::Prefix(prefix) => self.visit_prefix(prefix),
            Expression::Infix(infix) => self.visit_infix(infix),
            Expression::FunctionCall(call) => {
                proof {
                    assert(expression.model()->Call_1 =~= arguments_model(**call));
                }
                self.visit_function_call(call)
            },
        }
    }

    fn visit_identifier(&mut self, ident: &Identifier) -> (r: String)
        ensures
            r@ == ident.value@,
            *final(self) == *old(self),
    {
        ident.value.clone()
    }

    fn visit_integer(&mut self, literal: &IntegerLiteral) -> (r: String)
        ensures
            r@ == decimal(literal.value as int),
            *final(self) == *old(self),
    {
        decimal_string(literal.value)
    }

    fn visit_boolean(&mut self, literal: &BooleanLiteral) -> (r: String)
        ensures
            r@ == (if literal.value {
                "true"@
            } else {
                "false"@
            }),
            *final(self) == *old(self),
    {
        if literal.value {
            string_from_str("true")
        } else {
            string_from_str("false")
        }
    }

    fn visit_string(&mut self, literal: &StringLiteral) -> (r: String)
        ensures
            r@ == seq!['"'] + literal.value@ + seq!['"'],
            *final(self) == *old(self),
    {
        let mut r = String::new();
        push_char(&mut r, '"');
        push_str(&mut r, literal.value.as_str());
        push_char(&mut r, '"');
        assert(r@ =~= seq!['"'] + literal.value@ + seq!['"']);
        r
    }

    fn visit_prefix(&mut self, prefix: &PrefixExpression) -> (r: String)
        ensures
            r@ == prefix_opening(prefix.operator.token_type) + print_expression(prefix.right.model())
                + seq![')'],
            *final(self) == *old(self),
        decreases prefix,
    {
        let right = self.visit_expression(&prefix.right);
        self.visit_prefix_default(prefix, right)
    }

    fn visit_prefix_default(&mut self, prefix: &PrefixExpression, right: String) -> (r: String)
        ensures
            r@ == prefix_opening(prefix.operator.token_type) + right@ + seq![')'],
            *final(self) == *old(self),
    {
        match prefix.operator.token_type {
            TokenType::Plus => self.visit_positive(prefix, right),
            TokenType::Not => self.visit_not(prefix, right),
            _ => self.visit_negation(prefix, right),
        }
    }

    fn visit_infix(&mut self, infix: &InfixExpression) -> (r: String)
        ensures
            r@ == seq!['('] + print_expression(infix.left.model()) + infix_separator(
                infix.operator.token_type,
            ) + print_expression(infix.right.model()) + seq![')'],
            *final(self) == *old(self),
        decreases infix,
    {
        let left = self.visit_expression(&infix.left);
        let right = self.visit_expression(&infix.right);
        self.visit_infix_default(infix, left, right)
    }

    fn visit_infix_default(&mut self, infix: &InfixExpression, left: String, right: String) -> (r:
        String)
        ensures
            r@ == seq!['('] + left@ + infix_separator(infix.operator.token_type) + right@ + seq![')'],
            *final(self) == *old(self),
    {
        match infix.operator.token_type {
            TokenType::Plus => self.visit_addition(infix, left, right),
            TokenType::Minus => self.visit_subtraction(infix, left, right),
            TokenType::Divide => self.visit_division(infix, left, right),
            TokenType::Multiply => self.visit_multiplication(infix, left, right),
            TokenType::Equal => self.visit_equal(infix, left, right),
            TokenType::NotEqual => self.visit_not_equal(infix, left, right),
            TokenType::Greater => self.visit_greater(infix, left, right),
            TokenType::GreaterEqual => self.visit_greater_equal(infix, left, right),
            TokenType::Lesser => self.visit_lesser(infix, left, right),
            _ => self.visit_lesser_equal(infix, left, right),
        }
    }

    fn visit_function_call(&mut self, call: &FunctionCallExpression) -> (r: String)
        ensures
            r@ == call.identifier.value@ + seq!['('] + print_arguments(arguments_model(*call)) + seq![
                ')',
            ],
            *final(self) == *old(self),
        decreases call,
    {
        let ghost args = arguments_model(*call);
        proof {
            assert(Expression::FunctionCall(Box::new(*call)).model()->Call_1 =~= args);
        }
        let mut buffer = String::new();
        push_str(&mut buffer, call.identifier.value.as_str());
        push_char(&mut buffer, '(');
        let n = call.arguments.arguments.len();
        let mut i: usize = 0;
        while i < n
            invariant
                i <= n,
                n == call.arguments.arguments.len(),
                args == arguments_model(*call),
                printable_arguments(args),
                *self == *old(self),
                buffer@ == call.identifier.value@ + seq!['('] + print_arguments(args.take(i as int))
                    + (if 0 < i < n {
                    seq![',']
                } else {
                    Seq::<char>::empty()
                }),
            decreases n - i,
        {
            proof {
                lemma_argument_member(args, i as int);
                assert(args.take(i + 1).drop_last() =~= args.take(i as int));
            }
            let expression = self.visit_expression(&call.arguments.arguments[i]);
            push_str(&mut buffer, expression.as_str());
            if i < n - 1 {
                push_char(&mut buffer, ',');
            }
            proof {
                if i == 0 {
                    assert(args.take(1) =~= seq![args[0]]);
                }
            }
            i = i + 1;
            assert(buffer@ =~= call.identifier.value@ + seq!['('] + print_arguments(args.take(i as int))
                + (if 0 < i < n {
                seq![',']
            } else {
                Seq::<char>::empty()
            }));
        }
        assert(args.take(n as int) =~= args);
        push_char(&mut buffer, ')');
        buffer
    }

    fn visit_addition(&mut self, infix: &InfixExpression, left: String, right: String) -> (r: String)
        ensures
            r@ == seq!['('] + left@ + " + "@ + right@ + seq![')'],
            *final(self) == *old(self),
    {
        operation(left, " + ", right)
    }

    fn visit_subtraction(&mut self, infix: &InfixExpression, left: String, right: String) -> (r:
        String)
        ensures
            r@ == seq!['('] + left@ + " - "@ + right@ + seq![')'],
            *final(self) == *old(self),
    {
        operation(left, " - ", right)
    }

    fn visit_division(&mut self, infix: &InfixExpression, left: String, right: String) -> (r: String)
        ensures
            r@ == seq!['('] + left@ + " / "@ + right@ + seq![')'],
            *final(self) == *old(self),
    {
        operation(left, " / ", right)
    }

    fn visit_multiplication(&mut self, infix: &InfixExpression, left: String, right: String) -> (r:
        String)
        ensures
            r@ == seq!['('] + left@ + " * "@ + right@ + seq![')'],
            *final(self) == *old(self),
    {
        operation(left, " * ", right)
    }

    fn visit_equal(&mut self, infix: &InfixExpression, left: String, right: String) -> (r: String)
        ensures
            r@ == seq!['('] + left@ + " == "@ + right@ + seq![')'],
            *final(self) == *old(self),
    {
        operation(left, " == ", right)
    }

    fn visit_not_equal(&mut self, infix: &InfixExpression, left: String, right: String) -> (r:
        String)
        ensures
            r@ == seq!['('] + left@ + " != "@ + right@ + seq![')'],
            *final(self) == *old(self),
    {
        operation(left, " != ", right)
    }

    fn visit_greater(&mut self, infix: &InfixExpression, left: String, right: String) -> (r: String)
        ensures
            r@ == seq!['('] + left@ + " > "@ + right@ + seq![')'],
            *final(self) == *old(self),
    {
        operation(left, " > ", right)
    }

    fn visit_greater_equal(&mut self, infix: &InfixExpression, left: String, right: String) -> (r:
        String)
        ensures
            r@ == seq!['('] + left@ + " >= "@ + right@ + seq![')'],
            *final(self) == *old(self),
    {
        operation(left, " >= ", right)
    }

    fn visit_lesser(&mut self, infix: &InfixExpression, left: String, right: String) -> (r: String)
        ensures
            r@ == seq!['('] + left@ + " < "@ + right@ + seq![')'],
            *final(self) == *old(self),
    {
        operation(left, " < ", right)
    }

    fn visit_lesser_equal(&mut self, infix: &InfixExpression, left: String, right: String) -> (r:
        String)
        ensures
            r@ == seq!['('] + left@ + " <= "@ + right@ + seq![')'],
            *final(self) == *old(self),
    {
        operation(left, " <= ", right)
    }

    fn visit_positive(&mut self, prefix: &PrefixExpression, right: String) -> (r: String)
        ensures
            r@ == "(+"@ + right@ + seq![')'],
            *final(self) == *old(self),
    {
        wrapped("(+", right)
    }

    fn visit_negation(&mut self, prefix: &PrefixExpression, right: String) -> (r: String)
        ensures
            r@ == "(-"@ + right@ + seq![')'],
            *final(self) == *old(self),
    {
        wrapped("(-", right)
    }

    fn visit_not(&mut self, prefix: &PrefixExpression, right: String) -> (r: String)
        ensures
            r@ == "(NOT "@ + right@ + seq![')'],
            *final(self) == *old(self),
    {
        wrapped("(NOT ", right)
    }

    fn visit_statement(&mut self, statement: &Statement)
        ensures
            final(self).buffer@ == old(self).buffer@ + print_statement(
                statement.model(),
                old(self).indentation as nat,
            ),
            final(self).indentation == old(self).indentation,
        decreases statement,
    {
        match statement {
            Statement::Assign(stmt) => self.visit_assign(stmt),
            Statement::Return(stmt) => self.visit_return(stmt),
            Statement::Expression(expr) => self.visit_expression_statement(expr),
            Statement::Block(stmt) => self.visit_block(stmt),
            Statement::If(stmt) => self.visit_if(stmt),
            Statement::Procedure(stmt) => self.visit_procedure(stmt),
            Statement::While(stmt) => self.visit_while(stmt),
            Statement::ForLoop(stmt) => self.visit_for_loop(stmt),
        }
    }

    fn visit_assign(&mut self, stmt: &AssignStatement)
        ensures
            final(self).buffer@ == old(self).buffer@ + print_statement(
                Statement::Assign(Box::new(*stmt)).model(),
                old(self).indentation as nat,
            ),
            final(self).indentation == old(self).indentation,
        decreases stmt,
    {
        self.push_indentation();
        let name = self.visit_identifier(&stmt.variable);
        let value = self.visit_expression(&stmt.value);
        push_str(&mut self.buffer, name.as_str());
        push_str(&mut self.buffer, " = ");
        push_str(&mut self.buffer, value.as_str());
        push_char(&mut self.buffer, '\n');
        assert(self.buffer@ =~= old(self).buffer@ + print_statement(
            Statement::Assign(Box::new(*stmt)).model(),
            old(self).indentation as nat,
        ));
    }

    fn visit_return(&mut self, stmt: &ReturnStatement)
        ensures
            final(self).buffer@ == old(self).buffer@ + print_statement(
                Statement::Return(Box::new(*stmt)).model(),
                old(self).indentation as nat,
            ),
            final(self).indentation == old(self).indentation,
        decreases stmt,
    {
        self.push_indentation();
        let value = self.visit_expression(&stmt.expression);
        push_str(&mut self.buffer, "return ");
        push_str(&mut self.buffer, value.as_str());
        push_char(&mut self.buffer, '\n');
        assert(self.buffer@ =~= old(self).buffer@ + print_statement(
            Statement::Return(Box::new(*stmt)).model(),
            old(self).indentation as nat,
        ));
    }

    fn visit_expression_statement(&mut self, expr: &ExpressionStatement)
        ensures
            final(self).buffer@ == old(self).buffer@ + print_statement(
                Statement::Expression(Box::new(*expr)).model(),
                old(self).indentation as nat,
            ),
            final(self).indentation == old(self).indentation,
        decreases expr,
    {
        self.push_indentation();
        let value = self.visit_expression(&expr.expression);
        push_str(&mut self.buffer, value.as_str());
        push_char(&mut self.buffer, '\n');
        assert(self.buffer@ =~= old(self).buffer@ + print_statement(
            Statement::Expression(Box::new(*expr)).model(),
            old(self).indentation as nat,
        ));
    }

    fn visit_block(&mut self, stmt: &BlockStatement)
        ensures
            final(self).buffer@ == old(self).buffer@ + print_statements(
                stmt.model(),
                (old(self).indentation + 1) as nat,
            ),
            final(self).indentation == old(self).indentation,
        decreases stmt,
    {
        self.print_body(&stmt.body);
    }

    fn visit_if(&mut self, stmt: &IfStatement)
        ensures
            final(self).buffer@ == old(self).buffer@ + print_statement(
                Statement::If(Box::new(*stmt)).model(),
                old(self).indentation as nat,
            ),
            final(self).indentation == old(self).indentation,
        decreases stmt,
    {
        let ghost ind = self.indentation as nat;
        let ghost start = self.buffer@;
        self.push_indentation();
        let condition = self.visit_expression(&stmt.condition);
        push_str(&mut self.buffer, "if ");
        push_str(&mut self.buffer, condition.as_str());
        push_str(&mut self.buffer, " then\n");
        self.print_body(&stmt.consequence.body);
        let ghost middle = self.buffer@;
        if stmt.alternitive.body.len() != 0 {
            self.push_indentation();
            push_str(&mut self.buffer, "else\n");
            self.print_body(&stmt.alternitive.body);
        }
        let ghost after = self.buffer@;
        self.push_indentation();
        push_str(&mut self.buffer, "endif\n");
        assert(after =~= middle + (if stmt.alternitive.model().len() > 0 {
            spaces(4 * ind) + "else\n"@ + print_statements(stmt.alternitive.model(), ind + 1)
        } else {
            Seq::empty()
        }));
        assert(self.buffer@ =~= old(self).buffer@ + print_statement(
            Statement::If(Box::new(*stmt)).model(),
            old(self).indentation as nat,
        ));
    }

    fn visit_procedure(&mut self, stmt: &ProcedureStatement)
        ensures
            final(self).buffer@ == old(self).buffer@ + print_statement(
                Statement::Procedure(Box::new(*stmt)).model(),
                old(self).indentation as nat,
            ),
            final(self).indentation == old(self).indentation,
        decreases stmt,
    {
        let ghost names = crate::ast::identifiers_model(stmt.parameters@);
        let mut buffer = String::new();
        let n = stmt.parameters.len();
        let mut i: usize = 0;
        while i < n
            invariant
                i <= n,
                n == stmt.parameters.len(),
                names == crate::ast::identifiers_model(stmt.parameters@),
                *self == *old(self),
                buffer@ == print_names(names.take(i as int)) + (if 0 < i < n {
                    seq![',']
                } else {
                    Seq::<char>::empty()
                }),
            decreases n - i,
        {
            proof {
                assert(names.take(i + 1).drop_last() =~= names.take(i as int));
            }
            let name = self.visit_identifier(&stmt.parameters[i]);
            push_str(&mut buffer, name.as_str());
            if i < n - 1 {
                push_char(&mut buffer, ',');
            }
            proof {
                if i == 0 {
                    assert(names.take(1) =~= seq![names[0]]);
                }
            }
            i = i + 1;
            assert(buffer@ =~= print_names(names.take(i as int)) + (if 0 < i < n {
                seq![',']
            } else {
                Seq::<char>::empty()
            }));
        }
        assert(names.take(n as int) =~= names);
        self.push_indentation();
        let name = self.visit_identifier(&stmt.name);
        push_str(&mut self.buffer, "procedure ");
        push_str(&mut self.buffer, name.as_str());
        push_char(&mut self.buffer, '(');
        push_str(&mut self.buffer, buffer.as_str());
        push_char(&mut self.buffer, ')');
        self.print_body(&stmt.body.body);
        push_str(&mut self.buffer, "endprocedure");
        assert(self.buffer@ =~= old(self).buffer@ + print_statement(
            Statement::Procedure(Box::new(*stmt)).model(),
            old(self).indentation as nat,
        ));
    }

    fn visit_while(&mut self, stmt: &WhileStatement)
        ensures
            final(self).buffer@ == old(self).buffer@ + print_statement(
                Statement::While(Box::new(*stmt)).model(),
                old(self).indentation as nat,
            ),
            final(self).indentation == old(self).indentation,
        decreases stmt,
    {
        self.push_indentation();
        let condition = self.visit_expression(&stmt.condition);
        push_str(&mut self.buffer, "while ");
        push_str(&mut self.buffer, condition.as_str());
        self.print_body(&stmt.body.body);
        self.push_indentation();
        push_str(&mut self.buffer, "endwhile");
        assert(self.buffer@ =~= old(self).buffer@ + print_statement(
            Statement::While(Box::new(*stmt)).model(),
            old(self).indentation as nat,
        ));
    }

    fn visit_for_loop(&mut self, stmt: &ForLoopStatement)
        ensures
            final(self).buffer@ == old(self).buffer@ + print_statement(
                Statement::ForLoop(Box::new(*stmt)).model(),
                old(self).indentation as nat,
            ),
            final(self).indentation == old(self).indentation,
        decreases stmt,
    {
        self.push_indentation();
        let variable = self.visit_identifier(&stmt.variable);
        let initial = self.visit_expression(&stmt.initial_value);
        let end = self.visit_expression(&stmt.end_value);
        push_str(&mut self.buffer, "for ");
        push_str(&mut self.buffer, variable.as_str());
        push_str(&mut self.buffer, " = ");
        push_str(&mut self.buffer, initial.as_str());
        push_str(&mut self.buffer, " to ");
        push_str(&mut self.buffer, end.as_str());
        self.print_body(&stmt.body.body);
        self.push_indentation();
        let next = self.visit_identifier(&stmt.next_variable);
        push_str(&mut self.buffer, "next ");
        push_str(&mut self.buffer, next.as_str());
        assert(self.buffer@ =~= old(self).buffer@ + print_statement(
            Statement::ForLoop(Box::new(*stmt)).model(),
            old(self).indentation as nat,
        ));
    }
}

/// `(left separator right)`.
fn operation(left: String, separator: &str, right: String) -> (r: String)
    ensures
        r@ == seq!['('] + left@ + separator@ + right@ + seq![')'],
{
    let mut r = String::new();
    push_char(&mut r, '(');
    push_str(&mut r, left.as_str());
    push_str(&mut r, separator);
    push_str(&mut r, right.as_str());
    push_char(&mut r, ')');
    assert(r@ =~= seq!['('] + left@ + separator@ + right@ + seq![')']);
    r
}

/// `opening right)`.
fn wrapped(opening: &str, right: String) -> (r: String)
    ensures
        r@ == opening@ + right@ + seq![')'],
{
    let mut r = String::new();
    push_str(&mut r, opening);
    push_str(&mut r, right.as_str());
    push_char(&mut r, ')');
    assert(r@ =~= opening@ + right@ + seq![')']);
    r
}

/// Writing a syntax tree back as text.
pub trait PrettyPrint {
    /// Whether the tree can be written: every operator is one the printer knows,
    /// and its blocks nest less deeply than the indentation level can count.
    spec fn printable(&self) -> bool;

    /// The text that `pretty_print` gives.
    spec fn printed(&self) -> Seq<char>;

    fn pretty_print(&self) -> (r: String)
        requires
            self.printable(),
        ensures
            r@ == self.printed(),
    ;
}

impl PrettyPrint for Expression {
    /// The printer's text of an expression is handed back, not written to its
    /// buffer; what an expression gives here is the empty buffer.
    open spec fn printable(&self) -> bool {
        printable_expression(self.model())
    }

    open spec fn printed(&self) -> Seq<char> {
        Seq::empty()
    }

    fn pretty_print(&self) -> (r: String) {
        let mut printer = PrettyPrinter::new();
        let _ = printer.visit_expression(self);
        printer.buffer
    }
}

impl PrettyPrint for Statement {
    open spec fn printable(&self) -> bool {
        printable_statement(self.model()) && nesting(self.model()) <= usize::MAX
    }

    open spec fn printed(&self) -> Seq<char> {
        print_statement(self.model(), 0)
    }

    fn pretty_print(&self) -> (r: String) {
        let mut printer = PrettyPrinter::new();
        printer.visit_statement(self);
        assert(printer.buffer@ =~= print_statement(self.model(), 0));
        printer.buffer
    }
}

impl PrettyPrint for ProgramRoot {
    open spec fn printable(&self) -> bool {
        printable_block(self.model()) && block_nesting(self.model()) <= usize::MAX
    }

    open spec fn printed(&self) -> Seq<char> {
        print_statements(self.model(), 0)
    }

    fn pretty_print(&self) -> (r: String) {
        let mut printer = PrettyPrinter::new();
        printer.visit_program_root(self);
        assert(printer.buffer@ =~= print_statements(self.model(), 0));
        printer.buffer
    }
}

} // verus!
