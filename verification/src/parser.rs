//! The parser: a recursive descent over the tokens of the lexer, with
//! precedence climbing for infix operators.
//!
//! The grammar is stated as spec functions over the lexer's state; each of
//! them gives the lexer after the construct and what was read. The measure of
//! the lexer bounds every recursion: a call on the same state goes to a rule of
//! lower rank, and every other call is made on a state of lower measure.
use vstd::prelude::*;
use crate::ast::{
    identifiers_model,
    boolean_from, identifier_from, integer_from, string_from, BlockStatement, BooleanLiteral,
    Expression, ExpressionStatement, FunctionArguments, FunctionCallExpression, Identifier,
    IfStatement, InfixExpression, IntegerLiteral, PrefixExpression, ProcedureStatement,
    ProgramRoot, ReturnStatement, SpecExpression, SpecIdentifier, SpecStatement, Statement,
    StringLiteral, WhileStatement, AssignStatement, ForLoopStatement,
};
use crate::error::{lex_fail, lexer_fail, parser_fail, ParseFail, ParserError, SpecFail, SpecParserError};
use crate::lexer::Lexer;
use crate::token::{SpecToken, Token, TokenType};
use crate::token_cursor::{
    eat_newline, expect, expect_end, lemma_eat_newline, lemma_expect, lemma_expect_end,
    lemma_step, peek, peek_two, token_result, TokenCursor,
};

verus! {

/// How tightly an operator binds, from loosest to tightest.
#[derive(Debug, Clone, Copy, PartialEq, Eq, Structural)]
pub enum Precedence {
    Lowest,
    LogicalOr,
    LogicalAnd,
    Equals,
    LessGreater,
    Sum,
    Product,
    Prefix,
    Call,
}

impl Precedence {
    /// The place of this precedence in the order, from 0 for the loosest.
    pub open spec fn rank(self) -> nat {
        match self {
            Precedence::Lowest => 0,
            Precedence::LogicalOr => 1,
            Precedence::LogicalAnd => 2,
            Precedence::Equals => 3,
            Precedence::LessGreater => 4,
            Precedence::Sum => 5,
            Precedence::Product => 6,
            Precedence::Prefix => 7,
            Precedence::Call => 8,
        }
    }

    /// The place of this precedence in the order, from 0 for the loosest.
    pub fn index(&self) -> (r: usize)
        ensures
            r == self.rank(),
    {
        match self {
            Precedence::Lowest => 0,
            Precedence::LogicalOr => 1,
            Precedence::LogicalAnd => 2,
            Precedence::Equals => 3,
            Precedence::LessGreater => 4,
            Precedence::Sum => 5,
            Precedence::Product => 6,
            Precedence::Prefix => 7,
            Precedence::Call => 8,
        }
    }
}

/// The precedence of a token when it stands as an infix operator.
pub open spec fn precedence_of(token_type: TokenType) -> Precedence {
    match token_type {
        TokenType::Plus | TokenType::Minus => Precedence::Sum,
        TokenType::Or => Precedence::LogicalOr,
        TokenType::And => Precedence::LogicalAnd,
        TokenType::Equal | TokenType::NotEqual | TokenType::LesserEqual | TokenType::GreaterEqual => {
            Precedence::Equals
        },
        TokenType::Lesser | TokenType::Greater => Precedence::LessGreater,
        TokenType::Divide | TokenType::Multiply | TokenType::Modulo | TokenType::Quotient => {
            Precedence::Product
        },
        TokenType::LeftParen => Precedence::Call,
        _ => Precedence::Lowest,
    }
}

/// The precedence of a token when it stands as an infix operator.
pub fn get_precedence(token_type: TokenType) -> (r: Precedence)
    ensures
        r == precedence_of(token_type),
{
    match token_type {
        TokenType::Plus | TokenType::Minus => Precedence::Sum,
        TokenType::Or => Precedence::LogicalOr,
        TokenType::And => Precedence::LogicalAnd,
        TokenType::Equal | TokenType::NotEqual | TokenType::LesserEqual | TokenType::GreaterEqual => {
            Precedence::Equals
        },
        TokenType::Lesser | TokenType::Greater => Precedence::LessGreater,
        TokenType::Divide | TokenType::Multiply | TokenType::Modulo | TokenType::Quotient => {
            Precedence::Product
        },
        TokenType::LeftParen => Precedence::Call,
        _ => Precedence::Lowest,
    }
}

/// How tightly the infix operators bind, from the loosest: `OR`; `AND`;
/// `==`, `!=`, `<=`, `>=`; `<`, `>`; `+`, `-`; `*`, `/`, `MOD`, `DIV`; the `(`
/// of a call. The operators of one group bind alike, every group binds more
/// tightly than nothing at all, and a token that is none of these binds
/// nothing (so an expression ends before it).
pub proof fn lemma_operator_binding()
    ensures
        precedence_of(TokenType::Plus) == precedence_of(TokenType::Minus),
        precedence_of(TokenType::Multiply) == precedence_of(TokenType::Divide),
        precedence_of(TokenType::Multiply) == precedence_of(TokenType::Modulo),
        precedence_of(TokenType::Multiply) == precedence_of(TokenType::Quotient),
        precedence_of(TokenType::Equal) == precedence_of(TokenType::NotEqual),
        precedence_of(TokenType::Equal) == precedence_of(TokenType::LesserEqual),
        precedence_of(TokenType::Equal) == precedence_of(TokenType::GreaterEqual),
        precedence_of(TokenType::Lesser) == precedence_of(TokenType::Greater),
        Precedence::Lowest.rank() < precedence_of(TokenType::Or).rank(),
        precedence_of(TokenType::Or).rank() < precedence_of(TokenType::And).rank(),
        precedence_of(TokenType::And).rank() < precedence_of(TokenType::Equal).rank(),
        precedence_of(TokenType::Equal).rank() < precedence_of(TokenType::Lesser).rank(),
        precedence_of(TokenType::Lesser).rank() < precedence_of(TokenType::Plus).rank(),
        precedence_of(TokenType::Plus).rank() < precedence_of(TokenType::Multiply).rank(),
        precedence_of(TokenType::Multiply).rank() < Precedence::Prefix.rank(),
        Precedence::Prefix.rank() < precedence_of(TokenType::LeftParen).rank(),
        forall|tt: TokenType|
            !is_infix_operator(tt) && tt != TokenType::LeftParen ==> #[trigger] precedence_of(tt)
                == Precedence::Lowest,
{
}

/// The tokens that join two operands.
pub open spec fn is_infix_operator(tt: TokenType) -> bool {
    match tt {
        TokenType::Plus | TokenType::Minus | TokenType::Multiply | TokenType::Divide
        | TokenType::Modulo | TokenType::Quotient | TokenType::Equal | TokenType::NotEqual
        | TokenType::Greater | TokenType::GreaterEqual | TokenType::LesserEqual
        | TokenType::Lesser | TokenType::Or | TokenType::And => true,
        _ => false,
    }
}

/// The tokens that start a prefix expression.
pub open spec fn is_prefix_operator(tt: TokenType) -> bool {
    tt == TokenType::Plus || tt == TokenType::Not || tt == TokenType::Minus
}

/// What reading a name gives.
pub open spec fn spec_identifier(l: Lexer) -> (Lexer, Result<SpecIdentifier, SpecFail>) {
    let (n, r) = expect(l, TokenType::Identifier);
    match r {
        Err(e) => (n, Err(SpecFail::Error(e))),
        Ok(t) => match identifier_from(t) {
            Ok(i) => (n, Ok(i)),
            Err(e) => (n, Err(SpecFail::Error(e))),
        },
    }
}

/// Reading a name keeps the lexer well formed; when it succeeds, its measure drops.
pub proof fn lemma_identifier(l: Lexer)
    ensures
        spec_identifier(l).1 is Ok ==> l.wf(),
        l.wf() ==> spec_identifier(l).0.wf() && spec_identifier(l).0.measure() <= l.measure(),
        l.wf() && spec_identifier(l).1 is Ok ==> spec_identifier(l).0.measure() < l.measure(),
{
    lemma_expect(l, TokenType::Identifier);
}

/// What reading a literal of kind `tt` (a number, `true`, `false` or a string)
/// gives.
pub open spec fn spec_literal(l: Lexer, tt: TokenType) -> (Lexer, Result<SpecExpression, SpecFail>) {
    let (n, r) = expect(l, tt);
    match r {
        Err(e) => (n, Err(SpecFail::Error(e))),
        Ok(t) => {
            let v = if tt == TokenType::Number {
                integer_from(t)
            } else if tt == TokenType::String {
                match string_from(t) {
                    Ok(x) => Ok(x),
                    Err(e) => Err(SpecFail::Error(e)),
                }
            } else {
                match boolean_from(t) {
                    Ok(x) => Ok(x),
                    Err(e) => Err(SpecFail::Error(e)),
                }
            };
            (n, v)
        },
    }
}

/// The rest of a parameter list, after the parameters `acc`: `, name` as long
/// as no `)` comes.
pub open spec fn spec_parameters_rest(l: Lexer, acc: Seq<SpecIdentifier>) -> (
    Lexer,
    Result<Seq<SpecIdentifier>, SpecFail>,
)
    decreases l.measure(),
{
    match peek(l) {
        Err(e) => (l, Err(lex_fail(e))),
        Ok(t) => if t.token_type != TokenType::RightParen {
            let (l1, c) = expect(l, TokenType::Comma);
            match c {
                Err(e) => (l1, Err(SpecFail::Error(e))),
                Ok(_) => {
                    let (l2, p) = spec_identifier(l1);
                    match p {
                        Err(f) => (l2, Err(f)),
                        Ok(id) => {
                            proof {
                                lemma_expect(l, TokenType::Comma);
                                lemma_identifier(l1);
                            }
                            spec_parameters_rest(l2, acc.push(id))
                        },
                    }
                },
            }
        } else {
            (l, Ok(acc))
        },
    }
}

/// A parameter list, up to (not including) its `)`: names separated by `,`.
pub open spec fn spec_parameters(l: Lexer) -> (Lexer, Result<Seq<SpecIdentifier>, SpecFail>) {
    match peek(l) {
        Err(e) => (l, Err(lex_fail(e))),
        Ok(t) => if t.token_type == TokenType::RightParen {
            (l, Ok(Seq::empty()))
        } else {
            let (l1, p) = spec_identifier(l);
            match p {
                Err(f) => (l1, Err(f)),
                Ok(id) => spec_parameters_rest(l1, seq![id]),
            }
        },
    }
}

/// Reading parameters keeps the lexer well formed and never raises its measure.
pub proof fn lemma_parameters_rest(l: Lexer, acc: Seq<SpecIdentifier>)
    requires
        l.wf(),
    ensures
        spec_parameters_rest(l, acc).0.wf(),
        spec_parameters_rest(l, acc).0.measure() <= l.measure(),
    decreases l.measure(),
{
    lemma_step(l);
    if let Ok(t) = peek(l) {
        if t.token_type != TokenType::RightParen {
            lemma_expect(l, TokenType::Comma);
            let l1 = expect(l, TokenType::Comma).0;
            if expect(l, TokenType::Comma).1 is Ok {
                lemma_identifier(l1);
                if let Ok(id) = spec_identifier(l1).1 {
                    lemma_parameters_rest(spec_identifier(l1).0, acc.push(id));
                }
            }
        }
    }
}

/// Reading parameters keeps the lexer well formed and never raises its measure.
pub proof fn lemma_parameters(l: Lexer)
    requires
        l.wf(),
    ensures
        spec_parameters(l).0.wf(),
        spec_parameters(l).0.measure() <= l.measure(),
{
    lemma_identifier(l);
    if let Ok(id) = spec_identifier(l).1 {
        lemma_parameters_rest(spec_identifier(l).0, seq![id]);
    }
}

/// The statements of a block, each followed by any number of newlines, up to a
/// `stop` token (or `else`, with `also_else`), which is left in place.
pub open spec fn spec_block(l: Lexer, stop: TokenType, also_else: bool, acc: Seq<SpecStatement>) -> (
    Lexer,
    Result<Seq<SpecStatement>, SpecFail>,
)
    decreases l.measure(), 5nat,
{
    match peek(l) {
        Err(e) => (l, Err(lex_fail(e))),
        Ok(t) => if t.token_type == stop || (also_else && t.token_type == TokenType::Else) {
            (l, Ok(acc))
        } else {
            let (l1, s) = spec_statement(l);
            match s {
                Err(f) => (l1, Err(f)),
                Ok(st) => {
                    let (l2, r) = eat_newline(l1);
                    match r {
                        Err(e) => (l2, Err(lex_fail(e))),
                        Ok(_) => if l2.measure() < l.measure() {
                            spec_block(l2, stop, also_else, acc.push(st))
                        } else {
                            (l2, Ok(acc.push(st)))
                        },
                    }
                },
            }
        },
    }
}

/// The statements of a procedure, up to its `endprocedure`, which is left in place.
pub open spec fn spec_procedure_body(l: Lexer, acc: Seq<SpecStatement>) -> (
    Lexer,
    Result<Seq<SpecStatement>, SpecFail>,
)
    decreases l.measure(), 5nat,
{
    match peek(l) {
        Err(e) => (l, Err(lex_fail(e))),
        Ok(t) => if t.token_type == TokenType::EndProcedure {
            (l, Ok(acc))
        } else {
            let (l1, s) = spec_statement(l);
            match s {
                Err(f) => (l1, Err(f)),
                Ok(st) => if l1.measure() < l.measure() {
                    spec_procedure_body(l1, acc.push(st))
                } else {
                    (l1, Ok(acc.push(st)))
                },
            }
        },
    }
}

/// A statement; its kind is told by its first two tokens.
pub open spec fn spec_statement(l: Lexer) -> (Lexer, Result<SpecStatement, SpecFail>)
    decreases l.measure(), 4nat,
{
    match peek_two(l) {
        Err(e) => (l, Err(lex_fail(e))),
        Ok((a, b)) => if a.token_type == TokenType::Identifier && b.token_type == TokenType::Assign {
            spec_assign(l)
        } else if a.token_type == TokenType::Return {
            spec_return(l)
        } else if a.token_type == TokenType::If {
            spec_if(l)
        } else if a.token_type == TokenType::Procedure {
            spec_procedure(l)
        } else if a.token_type == TokenType::While {
            spec_while(l)
        } else if a.token_type == TokenType::For {
            spec_for(l)
        } else {
            let (l1, r) = spec_expression_statement(l);
            match r {
                Err(SpecFail::Error(SpecParserError::ExpectedExpressionGot(t))) => (
                    l1,
                    Err(SpecFail::Error(SpecParserError::FailedToParseStatementGot(t))),
                ),
                _ => (l1, r),
            }
        },
    }
}

/// `name = expression`, then the end of the statement.
pub open spec fn spec_assign(l: Lexer) -> (Lexer, Result<SpecStatement, SpecFail>)
{
    let (l1, v) = spec_identifier(l);
    match v {
        Err(f) => (l1, Err(f)),
        Ok(variable) => {
            let (l2, a) = expect(l1, TokenType::Assign);
            match a {
                Err(e) => (l2, Err(SpecFail::Error(e))),
                Ok(_) => {
                    let (l3, e) = spec_expression(l2, Precedence::Lowest);
                    match e {
                        Err(f) => (l3, Err(f)),
                        Ok(value) => {
                            let (l4, t) = expect_end(l3, true);
                            match t {
                                Err(e) => (l4, Err(SpecFail::Error(e))),
                                Ok(_) => (l4, Ok(SpecStatement::Assign(variable, value))),
                            }
                        },
                    }
                },
            }
        },
    }
}

/// `return expression`, then the end of the statement.
pub open spec fn spec_return(l: Lexer) -> (Lexer, Result<SpecStatement, SpecFail>)
{
    let (l1, k) = expect(l, TokenType::Return);
    match k {
        Err(e) => (l1, Err(SpecFail::Error(e))),
        Ok(_) => {
            let (l2, e) = spec_expression(l1, Precedence::Lowest);
            match e {
                Err(f) => (l2, Err(f)),
                Ok(expression) => {
                    let (l3, t) = expect_end(l2, true);
                    match t {
                        Err(e) => (l3, Err(SpecFail::Error(e))),
                        Ok(_) => (l3, Ok(SpecStatement::Return(expression))),
                    }
                },
            }
        },
    }
}

/// `procedure name(parameters)`, its body, `endprocedure`, then the end of the
/// statement.
pub open spec fn spec_procedure(l: Lexer) -> (Lexer, Result<SpecStatement, SpecFail>)
    decreases l.measure(), 3nat,
{
    let (l1, k) = expect(l, TokenType::Procedure);
    match k {
        Err(e) => (l1, Err(SpecFail::Error(e))),
        Ok(_) => {
            let (l2, n) = spec_identifier(l1);
            match n {
                Err(f) => (l2, Err(f)),
                Ok(name) => {
                    let (l3, o) = expect(l2, TokenType::LeftParen);
                    match o {
                        Err(e) => (l3, Err(SpecFail::Error(e))),
                        Ok(_) => {
                            let (l4, ps) = spec_parameters(l3);
                            match ps {
                                Err(f) => (l4, Err(f)),
                                Ok(parameters) => {
                                    let (l5, c) = expect(l4, TokenType::RightParen);
                                    match c {
                                        Err(e) => (l5, Err(SpecFail::Error(e))),
                                        Ok(_) => {
                                            let (l6, t) = expect_end(l5, false);
                                            match t {
                                                Err(e) => (l6, Err(SpecFail::Error(e))),
                                                Ok(_) => {
                                                    proof {
                                                        lemma_expect(l, TokenType::Procedure);
                                                        lemma_identifier(l1);
                                                        lemma_expect(l2, TokenType::LeftParen);
                                                        lemma_parameters(l3);
                                                        lemma_expect(l4, TokenType::RightParen);
                                                        lemma_expect_end(l5, false);
                                                    }
                                                    spec_procedure_end(
                                                        spec_procedure_body(l6, Seq::empty()),
                                                        name,
                                                        parameters,
                                                    )
                                                },
                                            }
                                        },
                                    }
                                },
                            }
                        },
                    }
                },
            }
        },
    }
}

/// After the body of a procedure: its `endprocedure`, then the end of the statement.
pub open spec fn spec_procedure_end(
    body: (Lexer, Result<Seq<SpecStatement>, SpecFail>),
    name: SpecIdentifier,
    parameters: Seq<SpecIdentifier>,
) -> (Lexer, Result<SpecStatement, SpecFail>) {
    let (l7, b) = body;
    match b {
        Err(f) => (l7, Err(f)),
        Ok(body) => {
            let (l8, k) = l7.spec_bump();
            match k {
                Err(e) => (l8, Err(lex_fail(e))),
                Ok(_) => {
                    let (l9, t) = expect_end(l8, true);
                    match t {
                        Err(e) => (l9, Err(SpecFail::Error(e))),
                        Ok(_) => (l9, Ok(SpecStatement::Procedure(name, parameters, body))),
                    }
                },
            }
        },
    }
}

/// An expression, then the end of the statement.
pub open spec fn spec_expression_statement(l: Lexer) -> (Lexer, Result<SpecStatement, SpecFail>)
{
    let (l1, e) = spec_expression(l, Precedence::Lowest);
    match e {
        Err(f) => (l1, Err(f)),
        Ok(expression) => {
            let (l2, t) = expect_end(l1, true);
            match t {
                Err(e) => (l2, Err(SpecFail::Error(e))),
                Ok(_) => (l2, Ok(SpecStatement::Expression(expression))),
            }
        },
    }
}

/// `if condition then`, the statements up to `else` or `endif`, then either
/// `endif`, or `else` and a nested `if`, or `else`, statements, `endif` and the
/// end of the statement.
pub open spec fn spec_if(l: Lexer) -> (Lexer, Result<SpecStatement, SpecFail>)
    decreases l.measure(), 3nat,
{
    let (l1, k) = expect(l, TokenType::If);
    match k {
        Err(e) => (l1, Err(SpecFail::Error(e))),
        Ok(_) => {
            let (l2, c) = spec_expression(l1, Precedence::Lowest);
            match c {
                Err(f) => (l2, Err(f)),
                Ok(condition) => {
                    let (l3, t) = expect(l2, TokenType::Then);
                    match t {
                        Err(e) => (l3, Err(SpecFail::Error(e))),
                        Ok(_) => {
                            let (l4, r) = eat_newline(l3);
                            match r {
                                Err(e) => (l4, Err(lex_fail(e))),
                                Ok(_) => if l4.measure() < l.measure() {
                                    let (l5, cs) = spec_block(l4, TokenType::EndIf, true, Seq::empty());
                                    match cs {
                                        Err(f) => (l5, Err(f)),
                                        Ok(consequence) => {
                                            let (l6, b) = l5.spec_bump();
                                            match b {
                                                Err(e) => (l6, Err(lex_fail(e))),
                                                Ok(tok) => if tok.token_type == TokenType::Else {
                                                    if l6.measure() < l.measure() {
                                                        spec_else(l6, condition, consequence)
                                                    } else {
                                                        (l6, Ok(SpecStatement::If(condition, consequence, Seq::empty())))
                                                    }
                                                } else {
                                                    (
                                                        l6,
                                                        Ok(
                                                            SpecStatement::If(
                                                                condition,
                                                                consequence,
                                                                Seq::empty(),
                                                            ),
                                                        ),
                                                    )
                                                },
                                            }
                                        },
                                    }
                                } else {
                                    (l4, Ok(SpecStatement::If(condition, Seq::empty(), Seq::empty())))
                                },
                            }
                        },
                    }
                },
            }
        },
    }
}

/// What follows the `else` of an `if` whose condition and statements are given.
pub open spec fn spec_else(l: Lexer, condition: SpecExpression, consequence: Seq<SpecStatement>) -> (
    Lexer,
    Result<SpecStatement, SpecFail>,
)
    decreases l.measure(), 6nat,
{
    match peek(l) {
        Err(e) => (l, Err(lex_fail(e))),
        Ok(p) => if p.token_type == TokenType::If {
            let (l7, r) = spec_if(l);
            match r {
                Err(f) => (l7, Err(f)),
                Ok(alt) => (l7, Ok(SpecStatement::If(condition, consequence, seq![alt]))),
            }
        } else {
            let (l7, r) = eat_newline(l);
            match r {
                Err(e) => (l7, Err(lex_fail(e))),
                Ok(_) => {
                    let (l8, a) = {
                        proof {
                            lemma_step(l);
                            lemma_eat_newline(l);
                        }
                        spec_block(l7, TokenType::EndIf, false, Seq::empty())
                    };
                    match a {
                        Err(f) => (l8, Err(f)),
                        Ok(alternative) => {
                            let (l9, k) = l8.spec_bump();
                            match k {
                                Err(e) => (l9, Err(lex_fail(e))),
                                Ok(_) => {
                                    let (l10, t) = expect_end(l9, true);
                                    match t {
                                        Err(e) => (l10, Err(SpecFail::Error(e))),
                                        Ok(_) => (
                                            l10,
                                            Ok(SpecStatement::If(condition, consequence, alternative)),
                                        ),
                                    }
                                },
                            }
                        },
                    }
                },
            }
        },
    }
}

/// `while condition`, a newline, the statements up to `endwhile`, and `endwhile`.
pub open spec fn spec_while(l: Lexer) -> (Lexer, Result<SpecStatement, SpecFail>)
    decreases l.measure(), 3nat,
{
    let (l1, k) = expect(l, TokenType::While);
    match k {
        Err(e) => (l1, Err(SpecFail::Error(e))),
        Ok(_) => {
            let (l2, c) = spec_expression(l1, Precedence::Lowest);
            match c {
                Err(f) => (l2, Err(f)),
                Ok(condition) => {
                    let (l3, n) = expect(l2, TokenType::Newline);
                    match n {
                        Err(e) => (l3, Err(SpecFail::Error(e))),
                        Ok(_) => {
                            let (l4, r) = eat_newline(l3);
                            match r {
                                Err(e) => (l4, Err(lex_fail(e))),
                                Ok(_) => if l4.measure() < l.measure() {
                                    let (l5, bs) = spec_block(l4, TokenType::EndWhile, false, Seq::empty());
                                    match bs {
                                        Err(f) => (l5, Err(f)),
                                        Ok(body) => {
                                            let (l6, b) = l5.spec_bump();
                                            match b {
                                                Err(e) => (l6, Err(lex_fail(e))),
                                                Ok(_) => (l6, Ok(SpecStatement::While(condition, body))),
                                            }
                                        },
                                    }
                                } else {
                                    (l4, Ok(SpecStatement::While(condition, Seq::empty())))
                                },
                            }
                        },
                    }
                },
            }
        },
    }
}

/// `for name = expression to expression`, a newline, the statements up to
/// `next`, and `next name`.
pub open spec fn spec_for(l: Lexer) -> (Lexer, Result<SpecStatement, SpecFail>)
    decreases l.measure(), 3nat,
{
    let (l1, k) = expect(l, TokenType::For);
    match k {
        Err(e) => (l1, Err(SpecFail::Error(e))),
        Ok(_) => {
            let (l2, v) = spec_identifier(l1);
            match v {
                Err(f) => (l2, Err(f)),
                Ok(variable) => {
                    let (l3, a) = expect(l2, TokenType::Assign);
                    match a {
                        Err(e) => (l3, Err(SpecFail::Error(e))),
                        Ok(_) => {
                            let (l4, i) = spec_expression(l3, Precedence::Lowest);
                            match i {
                                Err(f) => (l4, Err(f)),
                                Ok(initial_value) => {
                                    let (l5, t) = expect(l4, TokenType::To);
                                    match t {
                                        Err(e) => (l5, Err(SpecFail::Error(e))),
                                        Ok(_) => if l5.measure() < l.measure() {
                                            spec_for_rest(l5, variable, initial_value)
                                        } else {
                                            (l5, Ok(SpecStatement::Return(initial_value)))
                                        },
                                    }
                                },
                            }
                        },
                    }
                },
            }
        },
    }
}

/// The rest of a `for` loop, after its `to`.
pub open spec fn spec_for_rest(l: Lexer, variable: SpecIdentifier, initial_value: SpecExpression) -> (
    Lexer,
    Result<SpecStatement, SpecFail>,
)
    decreases l.measure(), 4nat,
{
    let (l6, e) = spec_expression(l, Precedence::Lowest);
    match e {
        Err(f) => (l6, Err(f)),
        Ok(end_value) => {
            let (l7, n) = expect(l6, TokenType::Newline);
            match n {
                Err(e) => (l7, Err(SpecFail::Error(e))),
                Ok(_) => {
                    let (l8, r) = eat_newline(l7);
                    match r {
                        Err(e) => (l8, Err(lex_fail(e))),
                        Ok(_) => if l8.measure() < l.measure() {
                            let (l9, bs) = spec_block(l8, TokenType::Next, false, Seq::empty());
                            match bs {
                                Err(f) => (l9, Err(f)),
                                Ok(body) => {
                                    let (l10, b) = l9.spec_bump();
                                    match b {
                                        Err(e) => (l10, Err(lex_fail(e))),
                                        Ok(_) => {
                                            let (l11, nv) = spec_identifier(l10);
                                            match nv {
                                                Err(f) => (l11, Err(f)),
                                                Ok(next_variable) => (
                                                    l11,
                                                    Ok(
                                                        SpecStatement::ForLoop(
                                                            variable,
                                                            initial_value,
                                                            end_value,
                                                            body,
                                                            next_variable,
                                                        ),
                                                    ),
                                                ),
                                            }
                                        },
                                    }
                                },
                            }
                        } else {
                            (l8, Ok(SpecStatement::ForLoop(variable, initial_value, end_value, Seq::empty(), variable)))
                        },
                    }
                },
            }
        },
    }
}

/// An expression whose operators bind more tightly than `prec`.
pub open spec fn spec_expression(l: Lexer, prec: Precedence) -> (Lexer, Result<SpecExpression, SpecFail>)
    decreases l.measure(), 2nat,
{
    match peek(l) {
        Err(e) => (l, Err(lex_fail(e))),
        Ok(a) => {
            let (l1, lhs) = if is_prefix_operator(a.token_type) {
                spec_prefix(l)
            } else if a.token_type == TokenType::Number || a.token_type == TokenType::True
                || a.token_type == TokenType::False || a.token_type == TokenType::String {
                spec_literal(l, a.token_type)
            } else if a.token_type == TokenType::LeftParen {
                spec_grouped(l)
            } else if a.token_type == TokenType::Identifier {
                let (n, r) = spec_identifier(l);
                match r {
                    Ok(i) => (n, Ok(SpecExpression::Identifier(i))),
                    Err(f) => (n, Err(f)),
                }
            } else {
                (l, Err(SpecFail::Error(SpecParserError::ExpectedExpressionGot(a))))
            };
            match lhs {
                Err(f) => (l1, Err(f)),
                Ok(lhs) => if l1.measure() < l.measure() {
                    spec_infix_loop(l1, prec, lhs)
                } else {
                    (l1, Ok(lhs))
                },
            }
        },
    }
}

/// The infix operators and calls that follow `lhs`, as long as they bind more
/// tightly than `prec`.
pub open spec fn spec_infix_loop(l: Lexer, prec: Precedence, lhs: SpecExpression) -> (
    Lexer,
    Result<SpecExpression, SpecFail>,
)
    decreases l.measure(), 2nat,
{
    match peek(l) {
        Err(e) => (l, Err(lex_fail(e))),
        Ok(p) => if is_infix_operator(p.token_type) && prec.rank() < precedence_of(
            p.token_type,
        ).rank() {
            let (l1, r) = spec_infix(l, lhs);
            match r {
                Err(f) => (l1, Err(f)),
                Ok(e) => if l1.measure() < l.measure() {
                    spec_infix_loop(l1, prec, e)
                } else {
                    (l1, Ok(e))
                },
            }
        } else if p.token_type == TokenType::LeftParen && prec.rank() < Precedence::Call.rank() {
            let (l1, b) = l.spec_bump();
            match b {
                Err(e) => (l1, Err(lex_fail(e))),
                Ok(_) => {
                    let (l2, r) = {
                        proof {
                            lemma_step(l);
                        }
                        spec_function_call(l1, lhs)
                    };
                    match r {
                        Err(f) => (l2, Err(f)),
                        Ok(call) => if l2.measure() < l.measure() {
                            spec_infix_loop(l2, prec, call)
                        } else {
                            (l2, Ok(call))
                        },
                    }
                },
            }
        } else {
            (l, Ok(lhs))
        },
    }
}

/// A prefix operator and its operand.
pub open spec fn spec_prefix(l: Lexer) -> (Lexer, Result<SpecExpression, SpecFail>)
    decreases l.measure(), 1nat,
{
    let (l1, b) = l.spec_bump();
    match b {
        Err(e) => (l1, Err(lex_fail(e))),
        Ok(op) => if is_prefix_operator(op.token_type) {
            let (l2, r) = {
                proof {
                    lemma_step(l);
                }
                spec_expression(l1, Precedence::Prefix)
            };
            match r {
                Err(f) => (l2, Err(f)),
                Ok(right) => (l2, Ok(SpecExpression::Prefix(op, Box::new(right)))),
            }
        } else {
            (l1, Err(SpecFail::Error(SpecParserError::NotAPrefixOperator(op))))
        },
    }
}

/// `( expression )`.
pub open spec fn spec_grouped(l: Lexer) -> (Lexer, Result<SpecExpression, SpecFail>)
    decreases l.measure(), 1nat,
{
    let (l1, o) = expect(l, TokenType::LeftParen);
    match o {
        Err(e) => (l1, Err(SpecFail::Error(e))),
        Ok(open) => {
            let (l2, e) = {
                proof {
                    lemma_expect(l, TokenType::LeftParen);
                }
                spec_expression(l1, Precedence::Lowest)
            };
            match e {
                Err(f) => (l2, Err(f)),
                Ok(expr) => {
                    let (l3, b) = l2.spec_bump();
                    match b {
                        Err(e) => (l3, Err(lex_fail(e))),
                        Ok(t) => if t.token_type != TokenType::RightParen {
                            (l3, Err(SpecFail::Error(SpecParserError::UnclosedParen(open))))
                        } else {
                            (l3, Ok(expr))
                        },
                    }
                },
            }
        },
    }
}

/// An infix operator and its right operand, after the left one `lhs`.
pub open spec fn spec_infix(l: Lexer, lhs: SpecExpression) -> (Lexer, Result<SpecExpression, SpecFail>)
    decreases l.measure(), 1nat,
{
    let (l1, b) = l.spec_bump();
    match b {
        Err(e) => (l1, Err(lex_fail(e))),
        Ok(op) => if l1.measure() < l.measure() {
            let (l2, r) = spec_expression(l1, precedence_of(op.token_type));
            match r {
                Err(f) => (l2, Err(f)),
                Ok(right) => (l2, Ok(SpecExpression::Infix(Box::new(lhs), op, Box::new(right)))),
            }
        } else {
            (l1, Ok(lhs))
        },
    }
}

/// A call of `lhs`, which must be a name, after its `(`: the arguments and `)`.
pub open spec fn spec_function_call(l: Lexer, lhs: SpecExpression) -> (
    Lexer,
    Result<SpecExpression, SpecFail>,
)
    decreases l.measure(), 4nat,
{
    match lhs {
        SpecExpression::Identifier(id) => {
            let (l1, r) = spec_call_arguments(l);
            match r {
                Err(f) => (l1, Err(f)),
                Ok(args) => (l1, Ok(SpecExpression::Call(id, args))),
            }
        },
        _ => (l, Err(SpecFail::Error(SpecParserError::ExpressionIsNotAnIdentifier(lhs)))),
    }
}

/// The arguments of a call, separated by `,`, and the closing `)`.
pub open spec fn spec_call_arguments(l: Lexer) -> (Lexer, Result<Seq<SpecExpression>, SpecFail>)
    decreases l.measure(), 3nat,
{
    match peek(l) {
        Err(e) => (l, Err(lex_fail(e))),
        Ok(t) => if t.token_type == TokenType::RightParen {
            let (l1, b) = l.spec_bump();
            match b {
                Err(e) => (l1, Err(lex_fail(e))),
                Ok(_) => (l1, Ok(Seq::empty())),
            }
        } else {
            let (l1, e) = spec_expression(l, Precedence::Lowest);
            match e {
                Err(f) => (l1, Err(f)),
                Ok(first) => if l1.measure() < l.measure() {
                    spec_close_arguments(spec_arguments_rest(l1, seq![first]))
                } else {
                    (l1, Ok(seq![first]))
                },
            }
        },
    }
}

/// After the arguments of a call: its `)`.
pub open spec fn spec_close_arguments(rest: (Lexer, Result<Seq<SpecExpression>, SpecFail>)) -> (
    Lexer,
    Result<Seq<SpecExpression>, SpecFail>,
) {
    let (l2, r) = rest;
    match r {
        Err(f) => (l2, Err(f)),
        Ok(args) => {
            let (l3, c) = expect(l2, TokenType::RightParen);
            match c {
                Err(e) => (l3, Err(SpecFail::Error(e))),
                Ok(_) => (l3, Ok(args)),
            }
        },
    }
}

/// The rest of the arguments of a call, after the arguments `acc`: `, expression`
/// as long as no `)` comes.
pub open spec fn spec_arguments_rest(l: Lexer, acc: Seq<SpecExpression>) -> (
    Lexer,
    Result<Seq<SpecExpression>, SpecFail>,
)
    decreases l.measure(), 2nat,
{
    match peek(l) {
        Err(e) => (l, Err(lex_fail(e))),
        Ok(t) => if t.token_type != TokenType::RightParen {
            let (l1, c) = expect(l, TokenType::Comma);
            match c {
                Err(e) => (l1, Err(SpecFail::Error(e))),
                Ok(_) => {
                    let (l2, e) = {
                        proof {
                            lemma_expect(l, TokenType::Comma);
                        }
                        spec_expression(l1, Precedence::Lowest)
                    };
                    match e {
                        Err(f) => (l2, Err(f)),
                        Ok(x) => if l2.measure() < l.measure() {
                            spec_arguments_rest(l2, acc.push(x))
                        } else {
                            (l2, Ok(acc.push(x)))
                        },
                    }
                },
            }
        } else {
            (l, Ok(acc))
        },
    }
}

/// The statements of a program after its leading newlines, up to `Eof`.
pub open spec fn spec_program_rest(l: Lexer, acc: Seq<SpecStatement>) -> (
    Lexer,
    Result<Seq<SpecStatement>, SpecFail>,
)
    decreases l.measure(),
{
    match peek(l) {
        Err(e) => (l, Err(lex_fail(e))),
        Ok(t) => if t.token_type == TokenType::Eof {
            (l, Ok(acc))
        } else {
            let (l1, s) = spec_statement(l);
            match s {
                Err(f) => (l1, Err(f)),
                Ok(st) => {
                    let (l2, r) = eat_newline(l1);
                    match r {
                        Err(e) => (l2, Err(lex_fail(e))),
                        Ok(_) => if l2.measure() < l.measure() {
                            spec_program_rest(l2, acc.push(st))
                        } else {
                            (l2, Ok(acc.push(st)))
                        },
                    }
                },
            }
        },
    }
}

/// A whole program: the statements of its top level, each followed by any
/// number of newlines, up to the end of the text.
pub open spec fn spec_program(l: Lexer) -> (Lexer, Result<Seq<SpecStatement>, SpecFail>) {
    let (l1, r) = eat_newline(l);
    match r {
        Err(e) => (l1, Err(lex_fail(e))),
        Ok(_) => spec_program_rest(l1, Seq::empty()),
    }
}

/// The models of a list of statements.
pub open spec fn statements_model(v: Seq<Statement>) -> Seq<SpecStatement> {
    v.map_values(|s: Statement| s.model())
}

/// The models of a list of expressions.
pub open spec fn expressions_model(v: Seq<Expression>) -> Seq<SpecExpression> {
    v.map_values(|e: Expression| e.model())
}

/// The model of a parsed expression or of the failure.
pub open spec fn expression_result(r: Result<Expression, ParseFail>) -> Result<SpecExpression, SpecFail> {
    match r {
        Ok(e) => Ok(e.model()),
        Err(f) => Err(f.model()),
    }
}

/// The model of a parsed statement or of the failure.
pub open spec fn statement_result(r: Result<Statement, ParseFail>) -> Result<SpecStatement, SpecFail> {
    match r {
        Ok(s) => Ok(s.model()),
        Err(f) => Err(f.model()),
    }
}

/// The model of parsed statements or of the failure.
pub open spec fn statements_result(r: Result<Vec<Statement>, ParseFail>) -> Result<
    Seq<SpecStatement>,
    SpecFail,
> {
    match r {
        Ok(v) => Ok(statements_model(v@)),
        Err(f) => Err(f.model()),
    }
}

/// The model of parsed arguments or of the failure.
pub open spec fn expressions_result(r: Result<Vec<Expression>, ParseFail>) -> Result<
    Seq<SpecExpression>,
    SpecFail,
> {
    match r {
        Ok(v) => Ok(expressions_model(v@)),
        Err(f) => Err(f.model()),
    }
}

/// The model of a parsed name or of the failure.
pub open spec fn identifier_result(r: Result<Identifier, ParseFail>) -> Result<SpecIdentifier, SpecFail> {
    match r {
        Ok(i) => Ok(i@),
        Err(f) => Err(f.model()),
    }
}

/// The model of parsed names or of the failure.
pub open spec fn identifiers_result(r: Result<Vec<Identifier>, ParseFail>) -> Result<
    Seq<SpecIdentifier>,
    SpecFail,
> {
    match r {
        Ok(v) => Ok(identifiers_model(v@)),
        Err(f) => Err(f.model()),
    }
}

/// Whether parsing from `l` stops at a number that does not fit in `i64`.
pub open spec fn stops_at_invalid_number(l: Lexer) -> bool {
    spec_program(l).1 matches Err(SpecFail::InvalidNumber(_))
}

/// A parser over a source text.
pub struct Parser {
    cursor: TokenCursor,
}

impl Parser {
    /// The state of the lexer under this parser.
    pub closed spec fn lexer(self) -> Lexer {
        self.cursor.lexer
    }

    /// A parser at the start of `src`.
    pub fn from(value: &str) -> (r: Parser)
        ensures
            r.lexer().wf(),
            r.lexer().cursor.line == 0,
            r.lexer().cursor.pos == 0,
            !r.lexer().line_has_token,
            crate::cursor::describes(r.lexer().cursor, value@),
    {
        Parser { cursor: TokenCursor::from(value) }
    }

    /// Parses the whole program.
    ///
    /// A number whose digits do not make an `i64` is not a program of the
    /// language; such a source is left out (see `parse_checked`).
    pub fn parse(&mut self) -> (r: Result<ProgramRoot, ParserError>)
        requires
            old(self).lexer().wf(),
            !stops_at_invalid_number(old(self).lexer()),
        ensures
            final(self).lexer().wf(),
            final(self).lexer() == spec_program(old(self).lexer()).0,
            match r {
                Ok(p) => spec_program(old(self).lexer()).1 == Ok::<Seq<SpecStatement>, SpecFail>(
                    p.model(),
                ),
                Err(e) => spec_program(old(self).lexer()).1 == Err::<Seq<SpecStatement>, SpecFail>(
                    SpecFail::Error(e.model()),
                ),
            },
    {
        match self.parse_checked() {
            Ok(p) => Ok(p),
            Err(ParseFail::Error(e)) => Err(e),
            Err(ParseFail::InvalidNumber(t)) => {
                proof {
                    assert(false);
                }
                Err(ParserError::NotANumber(t))
            },
        }
    }

    /// Parses the whole program; stops with `InvalidNumber` at a number whose
    /// digits do not make an `i64`.
    pub fn parse_checked(&mut self) -> (r: Result<ProgramRoot, ParseFail>)
        requires
            old(self).lexer().wf(),
        ensures
            final(self).lexer().wf(),
            final(self).lexer() == spec_program(old(self).lexer()).0,
            match r {
                Ok(p) => spec_program(old(self).lexer()).1 == Ok::<Seq<SpecStatement>, SpecFail>(
                    p.model(),
                ),
                Err(f) => spec_program(old(self).lexer()).1 == Err::<Seq<SpecStatement>, SpecFail>(
                    f.model(),
                ),
            },
    {
        let mut statements: Vec<Statement> = Vec::new();
        match self.cursor.eat_newline() {
            Ok(()) => {},
            Err(e) => {
                return Err(lexer_fail(e));
            },
        }
        let ghost start = self.cursor.lexer;
        assert(statements_model(statements@) =~= Seq::<SpecStatement>::empty());
        loop
            invariant
                self.cursor.lexer.wf(),
                spec_program_rest(self.cursor.lexer, statements_model(statements@))
                    == spec_program_rest(start, Seq::empty()),
                spec_program_rest(start, Seq::empty()) == spec_program(old(self).cursor.lexer),
            decreases self.cursor.lexer.measure(),
        {
            let eof = match self.cursor.is_eof() {
                Ok(b) => b,
                Err(e) => {
                    return Err(lexer_fail(e));
                },
            };
            if eof {
                let r = ProgramRoot(BlockStatement { body: statements });
                assert(r.model() =~= statements_model(statements@));
                return Ok(r);
            }
            let ghost before = self.cursor.lexer;
            let statement = match self.parse_statement() {
                Ok(s) => s,
                Err(f) => {
                    return Err(f);
                },
            };
            let ghost acc = statements_model(statements@);
            statements.push(statement);
            assert(statements_model(statements@) =~= acc.push(statement.model()));
            proof {
                lemma_eat_newline(self.cursor.lexer);
            }
            match self.cursor.eat_newline() {
                Ok(()) => {},
                Err(e) => {
                    return Err(lexer_fail(e));
                },
            }
        }
    }

    /// A statement; its kind is told by its first two tokens.
    fn parse_statement(&mut self) -> (r: Result<Statement, ParseFail>)
        requires
            old(self).cursor.lexer.wf(),
        ensures
            final(self).cursor.lexer.wf(),
            final(self).cursor.lexer == spec_statement(old(self).cursor.lexer).0,
            statement_result(r) == spec_statement(old(self).cursor.lexer).1,
            final(self).cursor.lexer.measure() <= old(self).cursor.lexer.measure(),
            r is Ok ==> final(self).cursor.lexer.measure() < old(self).cursor.lexer.measure(),
        decreases old(self).cursor.lexer.measure(), 4nat,
    {
        let (a, b) = match self.cursor.peek_two() {
            Ok(p) => p,
            Err(e) => {
                return Err(lexer_fail(e));
            },
        };
        if a.token_type == TokenType::Identifier && b.token_type == TokenType::Assign {
            self.parse_assign_statement()
        } else if a.token_type == TokenType::Return {
            self.parse_return_statement()
        } else if a.token_type == TokenType::If {
            self.parse_if_statement()
        } else if a.token_type == TokenType::Procedure {
            self.parse_procedure_statement()
        } else if a.token_type == TokenType::While {
            self.parse_while_statement()
        } else if a.token_type == TokenType::For {
            self.parse_for_loop_statement()
        } else {
            match self.parse_expression_statement() {
                Err(ParseFail::Error(ParserError::ExpectedExpressionGot(token))) => Err(
                    ParseFail::Error(ParserError::FailedToParseStatementGot(token)),
                ),
                rest => rest,
            }
        }
    }

    /// `name = expression`, then the end of the statement.
    fn parse_assign_statement(&mut self) -> (r: Result<Statement, ParseFail>)
        requires
            old(self).cursor.lexer.wf(),
        ensures
            final(self).cursor.lexer.wf(),
            final(self).cursor.lexer == spec_assign(old(self).cursor.lexer).0,
            statement_result(r) == spec_assign(old(self).cursor.lexer).1,
            final(self).cursor.lexer.measure() <= old(self).cursor.lexer.measure(),
            r is Ok ==> final(self).cursor.lexer.measure() < old(self).cursor.lexer.measure(),
    {
        let variable = match self.parse_identifier() {
            Ok(v) => v,
            Err(f) => {
                return Err(f);
            },
        };
        proof {
            lemma_expect(self.cursor.lexer, TokenType::Assign);
        }
        match self.cursor.expect(TokenType::Assign) {
            Ok(_) => {},
            Err(e) => {
                return Err(parser_fail(e));
            },
        }
        let expression = match self.parse_expression(Precedence::Lowest) {
            Ok(e) => e,
            Err(f) => {
                return Err(f);
            },
        };
        proof {
            lemma_expect_end(self.cursor.lexer, true);
        }
        match self.cursor.expect_end_of_statement_or_eof() {
            Ok(_) => {},
            Err(e) => {
                return Err(parser_fail(e));
            },
        }
        Ok(Statement::Assign(Box::new(AssignStatement { variable, value: expression })))
    }

    /// `return expression`, then the end of the statement.
    fn parse_return_statement(&mut self) -> (r: Result<Statement, ParseFail>)
        requires
            old(self).cursor.lexer.wf(),
        ensures
            final(self).cursor.lexer.wf(),
            final(self).cursor.lexer == spec_return(old(self).cursor.lexer).0,
            statement_result(r) == spec_return(old(self).cursor.lexer).1,
            final(self).cursor.lexer.measure() <= old(self).cursor.lexer.measure(),
            r is Ok ==> final(self).cursor.lexer.measure() < old(self).cursor.lexer.measure(),
    {
        proof {
            lemma_expect(self.cursor.lexer, TokenType::Return);
        }
        match self.cursor.expect(TokenType::Return) {
            Ok(_) => {},
            Err(e) => {
                return Err(parser_fail(e));
            },
        }
        let expression = match self.parse_expression(Precedence::Lowest) {
            Ok(e) => e,
            Err(f) => {
                return Err(f);
            },
        };
        proof {
            lemma_expect_end(self.cursor.lexer, true);
        }
        match self.cursor.expect_end_of_statement_or_eof() {
            Ok(_) => {},
            Err(e) => {
                return Err(parser_fail(e));
            },
        }
        Ok(Statement::Return(Box::new(ReturnStatement { expression })))
    }

    /// An expression, then the end of the statement.
    fn parse_expression_statement(&mut self) -> (r: Result<Statement, ParseFail>)
        requires
            old(self).cursor.lexer.wf(),
        ensures
            final(self).cursor.lexer.wf(),
            final(self).cursor.lexer == spec_expression_statement(old(self).cursor.lexer).0,
            statement_result(r) == spec_expression_statement(old(self).cursor.lexer).1,
            final(self).cursor.lexer.measure() <= old(self).cursor.lexer.measure(),
            r is Ok ==> final(self).cursor.lexer.measure() < old(self).cursor.lexer.measure(),
    {
        let expression = match self.parse_expression(Precedence::Lowest) {
            Ok(e) => e,
            Err(f) => {
                return Err(f);
            },
        };
        proof {
            lemma_expect_end(self.cursor.lexer, true);
        }
        match self.cursor.expect_end_of_statement_or_eof() {
            Ok(_) => {},
            Err(e) => {
                return Err(parser_fail(e));
            },
        }
        Ok(Statement::Expression(Box::new(ExpressionStatement { expression })))
    }

    /// A name.
    fn parse_identifier(&mut self) -> (r: Result<Identifier, ParseFail>)
        requires
            old(self).cursor.lexer.wf(),
        ensures
            final(self).cursor.lexer.wf(),
            final(self).cursor.lexer == spec_identifier(old(self).cursor.lexer).0,
            identifier_result(r) == spec_identifier(old(self).cursor.lexer).1,
            final(self).cursor.lexer.measure() <= old(self).cursor.lexer.measure(),
            r is Ok ==> final(self).cursor.lexer.measure() < old(self).cursor.lexer.measure(),
    {
        proof {
            lemma_identifier(self.cursor.lexer);
        }
        match self.cursor.expect(TokenType::Identifier) {
            Ok(t) => match Identifier::from_token(t) {
                Ok(i) => Ok(i),
                Err(e) => Err(parser_fail(e)),
            },
            Err(e) => Err(parser_fail(e)),
        }
    }
}

/// The model of a call: its name and the models of its arguments.
proof fn lemma_call_model(e: Expression)
    requires
        e is FunctionCall,
    ensures
        e.model() == SpecExpression::Call(
            e->FunctionCall_0.identifier@,
            expressions_model(e->FunctionCall_0.arguments.arguments@),
        ),
{
    let c = e->FunctionCall_0;
    assert(e.model()->Call_1 =~= expressions_model(c.arguments.arguments@));
}

/// Whether a token joins two operands.
fn is_infix_token(tt: TokenType) -> (r: bool)
    ensures
        r == is_infix_operator(tt),
{
    match tt {
        TokenType::Plus | TokenType::Minus | TokenType::Multiply | TokenType::Divide
        | TokenType::Modulo | TokenType::Quotient | TokenType::Equal | TokenType::NotEqual
        | TokenType::Greater | TokenType::GreaterEqual | TokenType::LesserEqual
        | TokenType::Lesser | TokenType::Or | TokenType::And => true,
        _ => false,
    }
}

impl Parser {
    /// An expression whose operators bind more tightly than `precedence`.
    fn parse_expression(&mut self, precedence: Precedence) -> (r: Result<Expression, ParseFail>)
        requires
            old(self).cursor.lexer.wf(),
        ensures
            final(self).cursor.lexer.wf(),
            final(self).cursor.lexer == spec_expression(old(self).cursor.lexer, precedence).0,
            expression_result(r) == spec_expression(old(self).cursor.lexer, precedence).1,
            final(self).cursor.lexer.measure() <= old(self).cursor.lexer.measure(),
            r is Ok ==> final(self).cursor.lexer.measure() < old(self).cursor.lexer.measure(),
        decreases old(self).cursor.lexer.measure(), 2nat,
    {
        let a = match self.cursor.peek() {
            Ok(t) => t,
            Err(e) => {
                return Err(lexer_fail(e));
            },
        };
        let mut lhs = if a.token_type == TokenType::Plus || a.token_type == TokenType::Not
            || a.token_type == TokenType::Minus {
            match self.parse_prefix_expression() {
                Ok(e) => e,
                Err(f) => {
                    return Err(f);
                },
            }
        } else if a.token_type == TokenType::Number {
            match self.parse_integer_literal() {
                Ok(e) => e,
                Err(f) => {
                    return Err(f);
                },
            }
        } else if a.token_type == TokenType::LeftParen {
            match self.parse_grouped_expression() {
                Ok(e) => e,
                Err(f) => {
                    return Err(f);
                },
            }
        } else if a.token_type == TokenType::Identifier {
            match self.parse_identifier() {
                Ok(i) => Expression::Identifier(Box::new(i)),
                Err(f) => {
                    return Err(f);
                },
            }
        } else if a.token_type == TokenType::True {
            match self.parse_true_literal() {
                Ok(e) => e,
                Err(f) => {
                    return Err(f);
                },
            }
        } else if a.token_type == TokenType::False {
            match self.parse_false_literal() {
                Ok(e) => e,
                Err(f) => {
                    return Err(f);
                },
            }
        } else if a.token_type == TokenType::String {
            match self.parse_string_literal() {
                Ok(e) => e,
                Err(f) => {
                    return Err(f);
                },
            }
        } else {
            return Err(ParseFail::Error(ParserError::ExpectedExpressionGot(a)));
        };
        let ghost start = self.cursor.lexer;
        let ghost first = lhs.model();
        assert(spec_expression(old(self).cursor.lexer, precedence) == spec_infix_loop(start, precedence, first));
        loop
            invariant
                self.cursor.lexer.wf(),
                start.measure() < old(self).cursor.lexer.measure(),
                self.cursor.lexer.measure() <= start.measure(),
                spec_infix_loop(self.cursor.lexer, precedence, lhs.model()) == spec_infix_loop(
                    start,
                    precedence,
                    first,
                ),
                spec_expression(old(self).cursor.lexer, precedence) == spec_infix_loop(
                    start,
                    precedence,
                    first,
                ),
            decreases self.cursor.lexer.measure(),
        {
            let peek = match self.cursor.peek() {
                Ok(t) => t,
                Err(e) => {
                    return Err(lexer_fail(e));
                },
            };
            if is_infix_token(peek.token_type) && precedence.index() < get_precedence(
                peek.token_type,
            ).index() {
                lhs = match self.parse_infix(lhs) {
                    Ok(e) => e,
                    Err(f) => {
                        return Err(f);
                    },
                };
            } else if peek.token_type == TokenType::LeftParen && precedence.index()
                < get_precedence(peek.token_type).index() {
                proof {
                    lemma_step(self.cursor.lexer);
                }
                match self.cursor.bump() {
                    Ok(_) => {},
                    Err(e) => {
                        return Err(lexer_fail(e));
                    },
                }
                lhs = match self.parse_function_call(lhs) {
                    Ok(e) => e,
                    Err(f) => {
                        return Err(f);
                    },
                };
            } else {
                return Ok(lhs);
            }
        }
    }

    /// `( expression )`.
    fn parse_grouped_expression(&mut self) -> (r: Result<Expression, ParseFail>)
        requires
            old(self).cursor.lexer.wf(),
        ensures
            final(self).cursor.lexer.wf(),
            final(self).cursor.lexer == spec_grouped(old(self).cursor.lexer).0,
            expression_result(r) == spec_grouped(old(self).cursor.lexer).1,
            final(self).cursor.lexer.measure() <= old(self).cursor.lexer.measure(),
            r is Ok ==> final(self).cursor.lexer.measure() < old(self).cursor.lexer.measure(),
        decreases old(self).cursor.lexer.measure(), 1nat,
    {
        proof {
            lemma_expect(self.cursor.lexer, TokenType::LeftParen);
        }
        let open = match self.cursor.expect(TokenType::LeftParen) {
            Ok(t) => t,
            Err(e) => {
                return Err(parser_fail(e));
            },
        };
        let expr = match self.parse_expression(Precedence::Lowest) {
            Ok(e) => e,
            Err(f) => {
                return Err(f);
            },
        };
        proof {
            lemma_step(self.cursor.lexer);
        }
        let close = match self.cursor.bump() {
            Ok(t) => t,
            Err(e) => {
                return Err(lexer_fail(e));
            },
        };
        if close.token_type != TokenType::RightParen {
            return Err(ParseFail::Error(ParserError::UnclosedParen(open)));
        }
        Ok(expr)
    }

    /// A prefix operator and its operand.
    fn parse_prefix_expression(&mut self) -> (r: Result<Expression, ParseFail>)
        requires
            old(self).cursor.lexer.wf(),
        ensures
            final(self).cursor.lexer.wf(),
            final(self).cursor.lexer == spec_prefix(old(self).cursor.lexer).0,
            expression_result(r) == spec_prefix(old(self).cursor.lexer).1,
            final(self).cursor.lexer.measure() <= old(self).cursor.lexer.measure(),
            r is Ok ==> final(self).cursor.lexer.measure() < old(self).cursor.lexer.measure(),
        decreases old(self).cursor.lexer.measure(), 1nat,
    {
        proof {
            lemma_step(self.cursor.lexer);
        }
        let bump = match self.cursor.bump() {
            Ok(t) => t,
            Err(e) => {
                return Err(lexer_fail(e));
            },
        };
        if bump.token_type == TokenType::Plus || bump.token_type == TokenType::Not
            || bump.token_type == TokenType::Minus {
            let right = match self.parse_expression(Precedence::Prefix) {
                Ok(e) => e,
                Err(f) => {
                    return Err(f);
                },
            };
            Ok(Expression::Prefix(Box::new(PrefixExpression { operator: bump, right })))
        } else {
            Err(ParseFail::Error(ParserError::NotAPrefixOperator(bump)))
        }
    }

    /// A number.
    fn parse_integer_literal(&mut self) -> (r: Result<Expression, ParseFail>)
        requires
            old(self).cursor.lexer.wf(),
        ensures
            final(self).cursor.lexer.wf(),
            final(self).cursor.lexer == spec_literal(old(self).cursor.lexer, TokenType::Number).0,
            expression_result(r) == spec_literal(old(self).cursor.lexer, TokenType::Number).1,
            final(self).cursor.lexer.measure() <= old(self).cursor.lexer.measure(),
            r is Ok ==> final(self).cursor.lexer.measure() < old(self).cursor.lexer.measure(),
    {
        proof {
            lemma_expect(self.cursor.lexer, TokenType::Number);
        }
        match self.cursor.expect(TokenType::Number) {
            Ok(t) => match IntegerLiteral::from_token(t) {
                Ok(i) => Ok(Expression::IntegerLiteral(Box::new(i))),
                Err(f) => Err(f),
            },
            Err(e) => Err(parser_fail(e)),
        }
    }

    /// `true`.
    fn parse_true_literal(&mut self) -> (r: Result<Expression, ParseFail>)
        requires
            old(self).cursor.lexer.wf(),
        ensures
            final(self).cursor.lexer.wf(),
            final(self).cursor.lexer == spec_literal(old(self).cursor.lexer, TokenType::True).0,
            expression_result(r) == spec_literal(old(self).cursor.lexer, TokenType::True).1,
            final(self).cursor.lexer.measure() <= old(self).cursor.lexer.measure(),
            r is Ok ==> final(self).cursor.lexer.measure() < old(self).cursor.lexer.measure(),
    {
        proof {
            lemma_expect(self.cursor.lexer, TokenType::True);
        }
        match self.cursor.expect(TokenType::True) {
            Ok(t) => match BooleanLiteral::from_token(t) {
                Ok(b) => Ok(Expression::BooleanLiteral(Box::new(b))),
                Err(e) => Err(parser_fail(e)),
            },
            Err(e) => Err(parser_fail(e)),
        }
    }

    /// `false`.
    fn parse_false_literal(&mut self) -> (r: Result<Expression, ParseFail>)
        requires
            old(self).cursor.lexer.wf(),
        ensures
            final(self).cursor.lexer.wf(),
            final(self).cursor.lexer == spec_literal(old(self).cursor.lexer, TokenType::False).0,
            expression_result(r) == spec_literal(old(self).cursor.lexer, TokenType::False).1,
            final(self).cursor.lexer.measure() <= old(self).cursor.lexer.measure(),
            r is Ok ==> final(self).cursor.lexer.measure() < old(self).cursor.lexer.measure(),
    {
        proof {
            lemma_expect(self.cursor.lexer, TokenType::False);
        }
        match self.cursor.expect(TokenType::False) {
            Ok(t) => match BooleanLiteral::from_token(t) {
                Ok(b) => Ok(Expression::BooleanLiteral(Box::new(b))),
                Err(e) => Err(parser_fail(e)),
            },
            Err(e) => Err(parser_fail(e)),
        }
    }

    /// A string.
    fn parse_string_literal(&mut self) -> (r: Result<Expression, ParseFail>)
        requires
            old(self).cursor.lexer.wf(),
        ensures
            final(self).cursor.lexer.wf(),
            final(self).cursor.lexer == spec_literal(old(self).cursor.lexer, TokenType::String).0,
            expression_result(r) == spec_literal(old(self).cursor.lexer, TokenType::String).1,
            final(self).cursor.lexer.measure() <= old(self).cursor.lexer.measure(),
            r is Ok ==> final(self).cursor.lexer.measure() < old(self).cursor.lexer.measure(),
    {
        proof {
            lemma_expect(self.cursor.lexer, TokenType::String);
        }
        match self.cursor.expect(TokenType::String) {
            Ok(t) => match StringLiteral::from_token(t) {
                Ok(s) => Ok(Expression::StringLiteral(Box::new(s))),
                Err(e) => Err(parser_fail(e)),
            },
            Err(e) => Err(parser_fail(e)),
        }
    }

    /// An infix operator, which comes next, and its right operand, after the
    /// left one `lhs`.
    fn parse_infix(&mut self, lhs: Expression) -> (r: Result<Expression, ParseFail>)
        requires
            old(self).cursor.lexer.wf(),
            peek(old(self).cursor.lexer) matches Ok(t) && is_infix_operator(t.token_type),
        ensures
            final(self).cursor.lexer.wf(),
            final(self).cursor.lexer == spec_infix(old(self).cursor.lexer, lhs.model()).0,
            expression_result(r) == spec_infix(old(self).cursor.lexer, lhs.model()).1,
            final(self).cursor.lexer.measure() <= old(self).cursor.lexer.measure(),
            r is Ok ==> final(self).cursor.lexer.measure() < old(self).cursor.lexer.measure(),
        decreases old(self).cursor.lexer.measure(), 1nat,
    {
        proof {
            lemma_step(self.cursor.lexer);
        }
        let operator = match self.cursor.bump() {
            Ok(t) => t,
            Err(e) => {
                return Err(lexer_fail(e));
            },
        };
        let precedence = get_precedence(operator.token_type);
        let rhs = match self.parse_expression(precedence) {
            Ok(e) => e,
            Err(f) => {
                return Err(f);
            },
        };
        Ok(Expression::Infix(Box::new(InfixExpression { left: lhs, operator, right: rhs })))
    }

    /// A call of `lhs`, which must be a name, after its `(`.
    fn parse_function_call(&mut self, lhs: Expression) -> (r: Result<Expression, ParseFail>)
        requires
            old(self).cursor.lexer.wf(),
        ensures
            final(self).cursor.lexer.wf(),
            final(self).cursor.lexer == spec_function_call(old(self).cursor.lexer, lhs.model()).0,
            expression_result(r) == spec_function_call(old(self).cursor.lexer, lhs.model()).1,
            final(self).cursor.lexer.measure() <= old(self).cursor.lexer.measure(),
            r is Ok ==> final(self).cursor.lexer.measure() < old(self).cursor.lexer.measure(),
        decreases old(self).cursor.lexer.measure(), 4nat,
    {
        let identifier = match Identifier::from_expression(lhs) {
            Ok(i) => i,
            Err(e) => {
                return Err(parser_fail(e));
            },
        };
        let arguments = match self.parse_call_arguments() {
            Ok(a) => a,
            Err(f) => {
                return Err(f);
            },
        };
        let r = Expression::FunctionCall(
            Box::new(FunctionCallExpression { identifier, arguments: FunctionArguments { arguments } }),
        );
        proof {
            lemma_call_model(r);
        }
        Ok(r)
    }

    /// The arguments of a call, separated by `,`, and the closing `)`.
    fn parse_call_arguments(&mut self) -> (r: Result<Vec<Expression>, ParseFail>)
        requires
            old(self).cursor.lexer.wf(),
        ensures
            final(self).cursor.lexer.wf(),
            final(self).cursor.lexer == spec_call_arguments(old(self).cursor.lexer).0,
            expressions_result(r) == spec_call_arguments(old(self).cursor.lexer).1,
            final(self).cursor.lexer.measure() <= old(self).cursor.lexer.measure(),
            r is Ok ==> final(self).cursor.lexer.measure() < old(self).cursor.lexer.measure(),
        decreases old(self).cursor.lexer.measure(), 3nat,
    {
        let mut args: Vec<Expression> = Vec::new();
        proof {
            lemma_step(self.cursor.lexer);
        }
        let t = match self.cursor.peek() {
            Ok(t) => t,
            Err(e) => {
                return Err(lexer_fail(e));
            },
        };
        if t.token_type == TokenType::RightParen {
            match self.cursor.bump() {
                Ok(_) => {},
                Err(e) => {
                    return Err(lexer_fail(e));
                },
            }
            assert(expressions_model(args@) =~= Seq::<SpecExpression>::empty());
            return Ok(args);
        }
        let first = match self.parse_expression(Precedence::Lowest) {
            Ok(e) => e,
            Err(f) => {
                return Err(f);
            },
        };
        let ghost start = self.cursor.lexer;
        let ghost first_model = first.model();
        args.push(first);
        assert(expressions_model(args@) =~= seq![first_model]);
        loop
            invariant
                self.cursor.lexer.wf(),
                start.measure() < old(self).cursor.lexer.measure(),
                self.cursor.lexer.measure() <= start.measure(),
                spec_arguments_rest(self.cursor.lexer, expressions_model(args@))
                    == spec_arguments_rest(start, seq![first_model]),
                spec_call_arguments(old(self).cursor.lexer) == spec_close_arguments(
                    spec_arguments_rest(start, seq![first_model]),
                ),
            decreases self.cursor.lexer.measure(),
        {
            let t = match self.cursor.peek() {
                Ok(t) => t,
                Err(e) => {
                    return Err(lexer_fail(e));
                },
            };
            if t.token_type == TokenType::RightParen {
                proof {
                    lemma_expect(self.cursor.lexer, TokenType::RightParen);
                }
                match self.cursor.expect(TokenType::RightParen) {
                    Ok(_) => {},
                    Err(e) => {
                        return Err(parser_fail(e));
                    },
                }
                return Ok(args);
            }
            proof {
                lemma_expect(self.cursor.lexer, TokenType::Comma);
            }
            match self.cursor.expect(TokenType::Comma) {
                Ok(_) => {},
                Err(e) => {
                    return Err(parser_fail(e));
                },
            }
            let e = match self.parse_expression(Precedence::Lowest) {
                Ok(e) => e,
                Err(f) => {
                    return Err(f);
                },
            };
            let ghost acc = expressions_model(args@);
            args.push(e);
            assert(expressions_model(args@) =~= acc.push(e.model()));
        }
    }
}

impl Parser {
    /// The statements of a block, each followed by any number of newlines, up
    /// to a `stop` token (or `else`, with `also_else`), which is left in place.
    fn parse_block(&mut self, stop: TokenType, also_else: bool) -> (r: Result<Vec<Statement>, ParseFail>)
        requires
            old(self).cursor.lexer.wf(),
        ensures
            final(self).cursor.lexer.wf(),
            final(self).cursor.lexer == spec_block(old(self).cursor.lexer, stop, also_else, Seq::empty()).0,
            statements_result(r) == spec_block(old(self).cursor.lexer, stop, also_else, Seq::empty()).1,
            final(self).cursor.lexer.measure() <= old(self).cursor.lexer.measure(),
            r is Ok ==> (peek(final(self).cursor.lexer) matches Ok(t) && (t.token_type == stop || (
            also_else && t.token_type == TokenType::Else))),
        decreases old(self).cursor.lexer.measure(), 5nat,
    {
        let mut body: Vec<Statement> = Vec::new();
        assert(statements_model(body@) =~= Seq::<SpecStatement>::empty());
        loop
            invariant
                self.cursor.lexer.wf(),
                self.cursor.lexer.measure() <= old(self).cursor.lexer.measure(),
                spec_block(self.cursor.lexer, stop, also_else, statements_model(body@)) == spec_block(
                    old(self).cursor.lexer,
                    stop,
                    also_else,
                    Seq::empty(),
                ),
            decreases self.cursor.lexer.measure(),
        {
            let t = match self.cursor.peek() {
                Ok(t) => t,
                Err(e) => {
                    return Err(lexer_fail(e));
                },
            };
            if t.token_type == stop || (also_else && t.token_type == TokenType::Else) {
                return Ok(body);
            }
            let statement = match self.parse_statement() {
                Ok(s) => s,
                Err(f) => {
                    return Err(f);
                },
            };
            let ghost acc = statements_model(body@);
            body.push(statement);
            assert(statements_model(body@) =~= acc.push(statement.model()));
            proof {
                lemma_eat_newline(self.cursor.lexer);
            }
            match self.cursor.eat_newline() {
                Ok(()) => {},
                Err(e) => {
                    return Err(lexer_fail(e));
                },
            }
        }
    }

    /// The statements of a procedure, up to its `endprocedure`, which is left
    /// in place.
    fn parse_procedure_body(&mut self) -> (r: Result<Vec<Statement>, ParseFail>)
        requires
            old(self).cursor.lexer.wf(),
        ensures
            final(self).cursor.lexer.wf(),
            final(self).cursor.lexer == spec_procedure_body(old(self).cursor.lexer, Seq::empty()).0,
            statements_result(r) == spec_procedure_body(old(self).cursor.lexer, Seq::empty()).1,
            final(self).cursor.lexer.measure() <= old(self).cursor.lexer.measure(),
        decreases old(self).cursor.lexer.measure(), 5nat,
    {
        let mut body: Vec<Statement> = Vec::new();
        assert(statements_model(body@) =~= Seq::<SpecStatement>::empty());
        loop
            invariant
                self.cursor.lexer.wf(),
                self.cursor.lexer.measure() <= old(self).cursor.lexer.measure(),
                spec_procedure_body(self.cursor.lexer, statements_model(body@)) == spec_procedure_body(
                    old(self).cursor.lexer,
                    Seq::empty(),
                ),
            decreases self.cursor.lexer.measure(),
        {
            let t = match self.cursor.peek() {
                Ok(t) => t,
                Err(e) => {
                    return Err(lexer_fail(e));
                },
            };
            if t.token_type == TokenType::EndProcedure {
                return Ok(body);
            }
            let statement = match self.parse_statement() {
                Ok(s) => s,
                Err(f) => {
                    return Err(f);
                },
            };
            let ghost acc = statements_model(body@);
            body.push(statement);
            assert(statements_model(body@) =~= acc.push(statement.model()));
        }
    }

    /// A parameter list, up to (not including) its `)`: names separated by `,`.
    fn parse_parameters(&mut self) -> (r: Result<Vec<Identifier>, ParseFail>)
        requires
            old(self).cursor.lexer.wf(),
        ensures
            final(self).cursor.lexer.wf(),
            final(self).cursor.lexer == spec_parameters(old(self).cursor.lexer).0,
            identifiers_result(r) == spec_parameters(old(self).cursor.lexer).1,
            final(self).cursor.lexer.measure() <= old(self).cursor.lexer.measure(),
    {
        let mut parameter: Vec<Identifier> = Vec::new();
        let t = match self.cursor.peek() {
            Ok(t) => t,
            Err(e) => {
                return Err(lexer_fail(e));
            },
        };
        if t.token_type == TokenType::RightParen {
            assert(identifiers_model(parameter@) =~= Seq::<SpecIdentifier>::empty());
            return Ok(parameter);
        }
        let first = match self.parse_identifier() {
            Ok(i) => i,
            Err(f) => {
                return Err(f);
            },
        };
        let ghost start = self.cursor.lexer;
        let ghost first_model = first@;
        parameter.push(first);
        assert(identifiers_model(parameter@) =~= seq![first_model]);
        loop
            invariant
                self.cursor.lexer.wf(),
                self.cursor.lexer.measure() <= old(self).cursor.lexer.measure(),
                spec_parameters_rest(self.cursor.lexer, identifiers_model(parameter@))
                    == spec_parameters_rest(start, seq![first_model]),
                spec_parameters(old(self).cursor.lexer) == spec_parameters_rest(start, seq![first_model]),
            decreases self.cursor.lexer.measure(),
        {
            let t = match self.cursor.peek() {
                Ok(t) => t,
                Err(e) => {
                    return Err(lexer_fail(e));
                },
            };
            if t.token_type == TokenType::RightParen {
                return Ok(parameter);
            }
            proof {
                lemma_expect(self.cursor.lexer, TokenType::Comma);
            }
            match self.cursor.expect(TokenType::Comma) {
                Ok(_) => {},
                Err(e) => {
                    return Err(parser_fail(e));
                },
            }
            let p = match self.parse_identifier() {
                Ok(i) => i,
                Err(f) => {
                    return Err(f);
                },
            };
            let ghost acc = identifiers_model(parameter@);
            parameter.push(p);
            assert(identifiers_model(parameter@) =~= acc.push(p@));
        }
    }

    /// `procedure name(parameters)`, its body, `endprocedure`, then the end of
    /// the statement.
    fn parse_procedure_statement(&mut self) -> (r: Result<Statement, ParseFail>)
        requires
            old(self).cursor.lexer.wf(),
        ensures
            final(self).cursor.lexer.wf(),
            final(self).cursor.lexer == spec_procedure(old(self).cursor.lexer).0,
            statement_result(r) == spec_procedure(old(self).cursor.lexer).1,
            final(self).cursor.lexer.measure() <= old(self).cursor.lexer.measure(),
            r is Ok ==> final(self).cursor.lexer.measure() < old(self).cursor.lexer.measure(),
        decreases old(self).cursor.lexer.measure(), 3nat,
    {
        proof {
            lemma_expect(self.cursor.lexer, TokenType::Procedure);
        }
        match self.cursor.expect(TokenType::Procedure) {
            Ok(_) => {},
            Err(e) => {
                return Err(parser_fail(e));
            },
        }
        let name = match self.parse_identifier() {
            Ok(i) => i,
            Err(f) => {
                return Err(f);
            },
        };
        proof {
            lemma_expect(self.cursor.lexer, TokenType::LeftParen);
        }
        match self.cursor.expect(TokenType::LeftParen) {
            Ok(_) => {},
            Err(e) => {
                return Err(parser_fail(e));
            },
        }
        let parameters = match self.parse_parameters() {
            Ok(p) => p,
            Err(f) => {
                return Err(f);
            },
        };
        proof {
            lemma_expect(self.cursor.lexer, TokenType::RightParen);
        }
        match self.cursor.expect(TokenType::RightParen) {
            Ok(_) => {},
            Err(e) => {
                return Err(parser_fail(e));
            },
        }
        proof {
            lemma_expect_end(self.cursor.lexer, false);
        }
        match self.cursor.expect_end_of_statement() {
            Ok(_) => {},
            Err(e) => {
                return Err(parser_fail(e));
            },
        }
        let body = match self.parse_procedure_body() {
            Ok(b) => b,
            Err(f) => {
                return Err(f);
            },
        };
        proof {
            lemma_step(self.cursor.lexer);
        }
        match self.cursor.bump() {
            Ok(_) => {},
            Err(e) => {
                return Err(lexer_fail(e));
            },
        }
        proof {
            lemma_expect_end(self.cursor.lexer, true);
        }
        match self.cursor.expect_end_of_statement_or_eof() {
            Ok(_) => {},
            Err(e) => {
                return Err(parser_fail(e));
            },
        }
        let r = Statement::Procedure(
            Box::new(ProcedureStatement { name, parameters, body: BlockStatement { body } }),
        );
        assert(BlockStatement { body }.model() =~= statements_model(body@));
        Ok(r)
    }

    /// `if condition then`, the statements up to `else` or `endif`, then either
    /// `endif`, or `else` and a nested `if`, or `else`, statements, `endif` and
    /// the end of the statement.
    fn parse_if_statement(&mut self) -> (r: Result<Statement, ParseFail>)
        requires
            old(self).cursor.lexer.wf(),
        ensures
            final(self).cursor.lexer.wf(),
            final(self).cursor.lexer == spec_if(old(self).cursor.lexer).0,
            statement_result(r) == spec_if(old(self).cursor.lexer).1,
            final(self).cursor.lexer.measure() <= old(self).cursor.lexer.measure(),
            r is Ok ==> final(self).cursor.lexer.measure() < old(self).cursor.lexer.measure(),
        decreases old(self).cursor.lexer.measure(), 3nat,
    {
        proof {
            lemma_expect(self.cursor.lexer, TokenType::If);
        }
        match self.cursor.expect(TokenType::If) {
            Ok(_) => {},
            Err(e) => {
                return Err(parser_fail(e));
            },
        }
        let condition = match self.parse_expression(Precedence::Lowest) {
            Ok(e) => e,
            Err(f) => {
                return Err(f);
            },
        };
        proof {
            lemma_expect(self.cursor.lexer, TokenType::Then);
        }
        match self.cursor.expect(TokenType::Then) {
            Ok(_) => {},
            Err(e) => {
                return Err(parser_fail(e));
            },
        }
        proof {
            lemma_eat_newline(self.cursor.lexer);
        }
        match self.cursor.eat_newline() {
            Ok(()) => {},
            Err(e) => {
                return Err(lexer_fail(e));
            },
        }
        let consequence = match self.parse_block(TokenType::EndIf, true) {
            Ok(b) => b,
            Err(f) => {
                return Err(f);
            },
        };
        proof {
            lemma_step(self.cursor.lexer);
        }
        let tok = match self.cursor.bump() {
            Ok(t) => t,
            Err(e) => {
                return Err(lexer_fail(e));
            },
        };
        if tok.token_type == TokenType::Else {
            return self.parse_else(condition, consequence);
        }
        // The statements stop only before `else` or `endif`.
        assert(tok.token_type == TokenType::EndIf);
        let alternative: Vec<Statement> = Vec::new();
        assert(BlockStatement { body: consequence }.model() =~= statements_model(consequence@));
        assert(BlockStatement { body: alternative }.model() =~= Seq::<SpecStatement>::empty());
        Ok(
            Statement::If(
                Box::new(
                    IfStatement {
                        condition,
                        consequence: BlockStatement { body: consequence },
                        alternitive: BlockStatement { body: alternative },
                    },
                ),
            ),
        )
    }

    /// What follows the `else` of an `if` whose condition and statements are
    /// given: a nested `if`, or statements, `endif` and the end of the statement.
    fn parse_else(&mut self, condition: Expression, consequence: Vec<Statement>) -> (r: Result<
        Statement,
        ParseFail,
    >)
        requires
            old(self).cursor.lexer.wf(),
        ensures
            final(self).cursor.lexer.wf(),
            final(self).cursor.lexer == spec_else(
                old(self).cursor.lexer,
                condition.model(),
                statements_model(consequence@),
            ).0,
            statement_result(r) == spec_else(
                old(self).cursor.lexer,
                condition.model(),
                statements_model(consequence@),
            ).1,
            final(self).cursor.lexer.measure() <= old(self).cursor.lexer.measure(),
        decreases old(self).cursor.lexer.measure(), 6nat,
    {
        let mut alternative: Vec<Statement> = Vec::new();
        let p = match self.cursor.peek() {
            Ok(t) => t,
            Err(e) => {
                return Err(lexer_fail(e));
            },
        };
        if p.token_type == TokenType::If {
            let nested = match self.parse_if_statement() {
                Ok(s) => s,
                Err(f) => {
                    return Err(f);
                },
            };
            let ghost nested_model = nested.model();
            alternative.push(nested);
            assert(BlockStatement { body: alternative }.model() =~= seq![nested_model]);
        } else {
            proof {
                lemma_eat_newline(self.cursor.lexer);
            }
            match self.cursor.eat_newline() {
                Ok(()) => {},
                Err(e) => {
                    return Err(lexer_fail(e));
                },
            }
            alternative = match self.parse_block(TokenType::EndIf, false) {
                Ok(b) => b,
                Err(f) => {
                    return Err(f);
                },
            };
            proof {
                lemma_step(self.cursor.lexer);
            }
            // The `endif`.
            match self.cursor.bump() {
                Ok(_) => {},
                Err(e) => {
                    return Err(lexer_fail(e));
                },
            }
            proof {
                lemma_expect_end(self.cursor.lexer, true);
            }
            match self.cursor.expect_end_of_statement_or_eof() {
                Ok(_) => {},
                Err(e) => {
                    return Err(parser_fail(e));
                },
            }
            assert(BlockStatement { body: alternative }.model() =~= statements_model(alternative@));
        }
        assert(BlockStatement { body: consequence }.model() =~= statements_model(consequence@));
        Ok(
            Statement::If(
                Box::new(
                    IfStatement {
                        condition,
                        consequence: BlockStatement { body: consequence },
                        alternitive: BlockStatement { body: alternative },
                    },
                ),
            ),
        )
    }

    /// `while condition`, a newline, the statements up to `endwhile`, and
    /// `endwhile`.
    fn parse_while_statement(&mut self) -> (r: Result<Statement, ParseFail>)
        requires
            old(self).cursor.lexer.wf(),
        ensures
            final(self).cursor.lexer.wf(),
            final(self).cursor.lexer == spec_while(old(self).cursor.lexer).0,
            statement_result(r) == spec_while(old(self).cursor.lexer).1,
            final(self).cursor.lexer.measure() <= old(self).cursor.lexer.measure(),
            r is Ok ==> final(self).cursor.lexer.measure() < old(self).cursor.lexer.measure(),
        decreases old(self).cursor.lexer.measure(), 3nat,
    {
        proof {
            lemma_expect(self.cursor.lexer, TokenType::While);
        }
        match self.cursor.expect(TokenType::While) {
            Ok(_) => {},
            Err(e) => {
                return Err(parser_fail(e));
            },
        }
        let condition = match self.parse_expression(Precedence::Lowest) {
            Ok(e) => e,
            Err(f) => {
                return Err(f);
            },
        };
        proof {
            lemma_expect(self.cursor.lexer, TokenType::Newline);
        }
        match self.cursor.expect(TokenType::Newline) {
            Ok(_) => {},
            Err(e) => {
                return Err(parser_fail(e));
            },
        }
        proof {
            lemma_eat_newline(self.cursor.lexer);
        }
        match self.cursor.eat_newline() {
            Ok(()) => {},
            Err(e) => {
                return Err(lexer_fail(e));
            },
        }
        let body = match self.parse_block(TokenType::EndWhile, false) {
            Ok(b) => b,
            Err(f) => {
                return Err(f);
            },
        };
        proof {
            lemma_step(self.cursor.lexer);
        }
        match self.cursor.bump() {
            Ok(_) => {},
            Err(e) => {
                return Err(lexer_fail(e));
            },
        }
        assert(BlockStatement { body }.model() =~= statements_model(body@));
        Ok(Statement::While(Box::new(WhileStatement { condition, body: BlockStatement { body } })))
    }

    /// `for name = expression to expression`, a newline, the statements up to
    /// `next`, and `next name`.
    fn parse_for_loop_statement(&mut self) -> (r: Result<Statement, ParseFail>)
        requires
            old(self).cursor.lexer.wf(),
        ensures
            final(self).cursor.lexer.wf(),
            final(self).cursor.lexer == spec_for(old(self).cursor.lexer).0,
            statement_result(r) == spec_for(old(self).cursor.lexer).1,
            final(self).cursor.lexer.measure() <= old(self).cursor.lexer.measure(),
            r is Ok ==> final(self).cursor.lexer.measure() < old(self).cursor.lexer.measure(),
        decreases old(self).cursor.lexer.measure(), 3nat,
    {
        proof {
            lemma_expect(self.cursor.lexer, TokenType::For);
        }
        match self.cursor.expect(TokenType::For) {
            Ok(_) => {},
            Err(e) => {
                return Err(parser_fail(e));
            },
        }
        let variable = match self.parse_identifier() {
            Ok(i) => i,
            Err(f) => {
                return Err(f);
            },
        };
        proof {
            lemma_expect(self.cursor.lexer, TokenType::Assign);
        }
        match self.cursor.expect(TokenType::Assign) {
            Ok(_) => {},
            Err(e) => {
                return Err(parser_fail(e));
            },
        }
        let initial_value = match self.parse_expression(Precedence::Lowest) {
            Ok(e) => e,
            Err(f) => {
                return Err(f);
            },
        };
        proof {
            lemma_expect(self.cursor.lexer, TokenType::To);
        }
        match self.cursor.expect(TokenType::To) {
            Ok(_) => {},
            Err(e) => {
                return Err(parser_fail(e));
            },
        }
        self.parse_for_rest(variable, initial_value)
    }

    /// The rest of a `for` loop, after its `to`.
    fn parse_for_rest(&mut self, variable: Identifier, initial_value: Expression) -> (r: Result<
        Statement,
        ParseFail,
    >)
        requires
            old(self).cursor.lexer.wf(),
        ensures
            final(self).cursor.lexer.wf(),
            final(self).cursor.lexer == spec_for_rest(
                old(self).cursor.lexer,
                variable@,
                initial_value.model(),
            ).0,
            statement_result(r) == spec_for_rest(
                old(self).cursor.lexer,
                variable@,
                initial_value.model(),
            ).1,
            final(self).cursor.lexer.measure() <= old(self).cursor.lexer.measure(),
            r is Ok ==> final(self).cursor.lexer.measure() < old(self).cursor.lexer.measure(),
        decreases old(self).cursor.lexer.measure(), 4nat,
    {
        let end_value = match self.parse_expression(Precedence::Lowest) {
            Ok(e) => e,
            Err(f) => {
                return Err(f);
            },
        };
        proof {
            lemma_expect(self.cursor.lexer, TokenType::Newline);
        }
        match self.cursor.expect(TokenType::Newline) {
            Ok(_) => {},
            Err(e) => {
                return Err(parser_fail(e));
            },
        }
        proof {
            lemma_eat_newline(self.cursor.lexer);
        }
        match self.cursor.eat_newline() {
            Ok(()) => {},
            Err(e) => {
                return Err(lexer_fail(e));
            },
        }
        let body = match self.parse_block(TokenType::Next, false) {
            Ok(b) => b,
            Err(f) => {
                return Err(f);
            },
        };
        proof {
            lemma_step(self.cursor.lexer);
        }
        match self.cursor.bump() {
            Ok(_) => {},
            Err(e) => {
                return Err(lexer_fail(e));
            },
        }
        let next_variable = match self.parse_identifier() {
            Ok(i) => i,
            Err(f) => {
                return Err(f);
            },
        };
        assert(BlockStatement { body }.model() =~= statements_model(body@));
        Ok(
            Statement::ForLoop(
                Box::new(
                    ForLoopStatement {
                        variable,
                        initial_value,
                        end_value,
                        body: BlockStatement { body },
                        next_variable,
                    },
                ),
            ),
        )
    }
}

} // verus!
