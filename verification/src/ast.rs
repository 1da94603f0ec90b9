//! The syntax tree of a program, and its mathematical model.
use vstd::prelude::*;
use crate::error::{ParseFail, ParserError, SpecFail, SpecParserError};
use crate::position::TokenPosition;
use crate::text::spec_is_ascii_digit;
use crate::token::{SpecToken, Token, TokenType};

verus! {

/// A statement; each kind holds its node on the heap.
#[derive(Debug, PartialEq)]
pub enum Statement {
    Assign(Box<AssignStatement>),
    Return(Box<ReturnStatement>),
    Expression(Box<ExpressionStatement>),
    Block(Box<BlockStatement>),
    If(Box<IfStatement>),
    Procedure(Box<ProcedureStatement>),
    While(Box<WhileStatement>),
    ForLoop(Box<ForLoopStatement>),
}

/// An expression; each kind holds its node on the heap.
#[derive(Debug, PartialEq)]
pub enum Expression {
    Identifier(Box<Identifier>),
    IntegerLiteral(Box<IntegerLiteral>),
    BooleanLiteral(Box<BooleanLiteral>),
    StringLiteral(Box<StringLiteral>),
    Prefix(Box<PrefixExpression>),
    Infix(Box<InfixExpression>),
    FunctionCall(Box<FunctionCallExpression>),
}

#[derive(Debug, PartialEq)]
pub struct Identifier {
    pub value: String,
    pub token_position: TokenPosition,
}

#[derive(Debug, PartialEq)]
pub struct IntegerLiteral {
    pub value: i64,
    pub token_position: TokenPosition,
}

#[derive(Debug, PartialEq)]
pub struct StringLiteral {
    pub value: String,
    pub token_position: TokenPosition,
}

#[derive(Debug, PartialEq)]
pub struct BooleanLiteral {
    pub value: bool,
    pub token_position: TokenPosition,
}

/// A whole program: the statements of its top level.
#[derive(Debug, PartialEq)]
pub struct ProgramRoot(pub BlockStatement);

#[derive(Debug, PartialEq)]
pub struct AssignStatement {
    pub variable: Identifier,
    pub value: Expression,
}

#[derive(Debug, PartialEq)]
pub struct ReturnStatement {
    pub expression: Expression,
}

#[derive(Debug, PartialEq)]
pub struct WhileStatement {
    pub condition: Expression,
    pub body: BlockStatement,
}

#[derive(Debug, PartialEq)]
pub struct ForLoopStatement {
    pub variable: Identifier,
    pub initial_value: Expression,
    pub end_value: Expression,
    pub body: BlockStatement,
    pub next_variable: Identifier,
}

#[derive(Debug, PartialEq)]
pub struct BlockStatement {
    pub body: Vec<Statement>,
}

#[derive(Debug, PartialEq)]
pub struct IfStatement {
    pub condition: Expression,
    pub consequence: BlockStatement,
    pub alternitive: BlockStatement,
}

#[derive(Debug, PartialEq)]
pub struct ProcedureStatement {
    pub name: Identifier,
    pub parameters: Vec<Identifier>,
    pub body: BlockStatement,
}

#[derive(Debug, PartialEq)]
pub struct ExpressionStatement {
    pub expression: Expression,
}

#[derive(Debug, PartialEq)]
pub struct PrefixExpression {
    pub operator: Token,
    pub right: Expression,
}

#[derive(Debug, PartialEq)]
pub struct InfixExpression {
    pub left: Expression,
    pub operator: Token,
    pub right: Expression,
}

#[derive(Debug, PartialEq)]
pub struct FunctionArguments {
    pub arguments: Vec<Expression>,
}

#[derive(Debug, PartialEq)]
pub struct FunctionCallExpression {
    pub identifier: Identifier,
    pub arguments: FunctionArguments,
}

/// What an identifier is: its name and its span.
pub struct SpecIdentifier {
    pub value: Seq<char>,
    pub pos: TokenPosition,
}

/// What an expression is.
pub enum SpecExpression {
    Identifier(SpecIdentifier),
    Integer(i64, TokenPosition),
    Boolean(bool, TokenPosition),
    Str(Seq<char>, TokenPosition),
    Prefix(SpecToken, Box<SpecExpression>),
    Infix(Box<SpecExpression>, SpecToken, Box<SpecExpression>),
    Call(SpecIdentifier, Seq<SpecExpression>),
}

/// What a statement is.
pub enum SpecStatement {
    Assign(SpecIdentifier, SpecExpression),
    Return(SpecExpression),
    Expression(SpecExpression),
    Block(Seq<SpecStatement>),
    If(SpecExpression, Seq<SpecStatement>, Seq<SpecStatement>),
    Procedure(SpecIdentifier, Seq<SpecIdentifier>, Seq<SpecStatement>),
    While(SpecExpression, Seq<SpecStatement>),
    ForLoop(SpecIdentifier, SpecExpression, SpecExpression, Seq<SpecStatement>, SpecIdentifier),
}

impl View for Identifier {
    type V = SpecIdentifier;

    open spec fn view(&self) -> SpecIdentifier {
        SpecIdentifier { value: self.value@, pos: self.token_position }
    }
}

/// The models of a list of identifiers.
pub open spec fn identifiers_model(v: Seq<Identifier>) -> Seq<SpecIdentifier> {
    v.map_values(|i: Identifier| i@)
}

impl Expression {
    /// What this expression is.
    pub open spec fn model(self) -> SpecExpression
        decreases self,
    {
        match self {
            Expression::Identifier(i) => SpecExpression::Identifier((*i)@),
            Expression::IntegerLiteral(l) => SpecExpression::Integer(l.value, l.token_position),
            Expression::BooleanLiteral(l) => SpecExpression::Boolean(l.value, l.token_position),
            Expression::StringLiteral(l) => SpecExpression::Str(l.value@, l.token_position),
            Expression::Prefix(p) => SpecExpression::Prefix(p.operator@, Box::new(p.right.model())),
            Expression::Infix(i) => SpecExpression::Infix(
                Box::new(i.left.model()),
                i.operator@,
                Box::new(i.right.model()),
            ),
            Expression::FunctionCall(c) => SpecExpression::Call(
                c.identifier@,
                Seq::new(
                    c.arguments.arguments.len() as nat,
                    |k: int|
                        if 0 <= k < c.arguments.arguments.len() {
                            c.arguments.arguments[k].model()
                        } else {
                            SpecExpression::Boolean(false, c.identifier.token_position)
                        },
                ),
            ),
        }
    }
}

impl BlockStatement {
    /// What the statements of this block are, in order.
    pub open spec fn model(self) -> Seq<SpecStatement>
        decreases self,
    {
        Seq::new(
            self.body.len() as nat,
            |k: int|
                if 0 <= k < self.body.len() {
                    self.body[k].model()
                } else {
                    SpecStatement::Block(Seq::empty())
                },
        )
    }
}

impl Statement {
    /// What this statement is.
    pub open spec fn model(self) -> SpecStatement
        decreases self,
    {
        match self {
            Statement::Assign(s) => SpecStatement::Assign(s.variable@, s.value.model()),
            Statement::Return(s) => SpecStatement::Return(s.expression.model()),
            Statement::Expression(s) => SpecStatement::Expression(s.expression.model()),
            Statement::Block(s) => SpecStatement::Block(s.model()),
            Statement::If(s) => SpecStatement::If(
                s.condition.model(),
                s.consequence.model(),
                s.alternitive.model(),
            ),
            Statement::Procedure(s) => SpecStatement::Procedure(
                s.name@,
                identifiers_model(s.parameters@),
                s.body.model(),
            ),
            Statement::While(s) => SpecStatement::While(s.condition.model(), s.body.model()),
            Statement::ForLoop(s) => SpecStatement::ForLoop(
                s.variable@,
                s.initial_value.model(),
                s.end_value.model(),
                s.body.model(),
                s.next_variable@,
            ),
        }
    }
}

impl ProgramRoot {
    /// What the statements of the program are, in order.
    pub open spec fn model(self) -> Seq<SpecStatement> {
        self.0.model()
    }
}

/// The value of a string of decimal digits.
pub open spec fn digits_value(s: Seq<char>) -> int
    decreases s.len(),
{
    if s.len() == 0 {
        0
    } else {
        digits_value(s.drop_last()) * 10 + (s.last() as u32 - '0' as u32)
    }
}

/// The `i64` that `s` spells in decimal: one or more ASCII digits whose value
/// fits.
pub open spec fn decimal_i64(s: Seq<char>) -> Option<i64> {
    if s.len() > 0 && (forall|i: int| 0 <= i < s.len() ==> spec_is_ascii_digit(#[trigger] s[i]))
        && digits_value(s) <= i64::MAX {
        Some(digits_value(s) as i64)
    } else {
        None
    }
}

/// A prefix of a string of digits is worth no more than the whole.
pub proof fn lemma_digits_value_prefix(s: Seq<char>, k: int)
    requires
        0 <= k <= s.len(),
        forall|i: int| 0 <= i < s.len() ==> spec_is_ascii_digit(#[trigger] s[i]),
    ensures
        0 <= digits_value(s.take(k)) <= digits_value(s),
    decreases s.len(),
{
    if s.len() > 0 {
        if k == s.len() {
            assert(s.take(k) =~= s);
            lemma_digits_value_prefix(s.drop_last(), k - 1);
            assert(s.drop_last().take(k - 1) =~= s.take(k - 1));
        } else {
            lemma_digits_value_prefix(s.drop_last(), k);
            assert(s.drop_last().take(k) =~= s.take(k));
            lemma_digits_value_prefix(s.drop_last(), s.len() - 1);
            assert(s.drop_last().take(s.len() - 1) =~= s.drop_last());
        }
    }
}

/// The `i64` that the characters of `s` spell in decimal, if any.
pub fn decimal_value(s: &Vec<char>) -> (r: Option<i64>)
    ensures
        r == decimal_i64(s@),
{
    if s.len() == 0 {
        return None;
    }
    let mut v: i64 = 0;
    let mut i: usize = 0;
    while i < s.len()
        invariant
            0 <= i <= s.len(),
            s.len() > 0,
            forall|j: int| 0 <= j < i ==> spec_is_ascii_digit(#[trigger] s@[j]),
            v == digits_value(s@.take(i as int)),
            0 <= v,
        decreases s.len() - i,
    {
        let c = s[i];
        let u = c as u32;
        if !('0' as u32 <= u && u <= '9' as u32) {
            return None;
        }
        let d = (u - '0' as u32) as i64;
        assert(s@.take(i + 1).drop_last() =~= s@.take(i as int));
        if v > (i64::MAX - d) / 10 {
            proof {
                if forall|j: int| 0 <= j < s.len() ==> spec_is_ascii_digit(#[trigger] s@[j]) {
                    lemma_digits_value_prefix(s@, i + 1);
                }
            }
            return None;
        }
        assert(v * 10 + d <= i64::MAX) by (nonlinear_arith)
            requires
                0 <= v <= (i64::MAX - d) / 10,
                0 <= d <= 9,
        ;
        v = v * 10 + d;
        i = i + 1;
    }
    assert(s@.take(s.len() as int) =~= s@);
    Some(v)
}

/// What reading a token as a name gives.
pub open spec fn identifier_from(t: SpecToken) -> Result<SpecIdentifier, SpecParserError> {
    if t.token_type == TokenType::Identifier {
        Ok(SpecIdentifier { value: t.literal, pos: t.pos })
    } else {
        Err(SpecParserError::TokenIsNotAnIdentifier(t))
    }
}

/// What reading a token as a number gives.
pub open spec fn integer_from(t: SpecToken) -> Result<SpecExpression, SpecFail> {
    if t.token_type == TokenType::Number {
        match decimal_i64(t.literal) {
            Some(v) => Ok(SpecExpression::Integer(v, t.pos)),
            None => Err(SpecFail::InvalidNumber(t)),
        }
    } else {
        Err(SpecFail::Error(SpecParserError::NotANumber(t)))
    }
}

/// What reading a token as a Boolean gives.
pub open spec fn boolean_from(t: SpecToken) -> Result<SpecExpression, SpecParserError> {
    if t.token_type == TokenType::True {
        Ok(SpecExpression::Boolean(true, t.pos))
    } else if t.token_type == TokenType::False {
        Ok(SpecExpression::Boolean(false, t.pos))
    } else {
        Err(SpecParserError::NotABoolean(t))
    }
}

/// What reading a token as a string gives.
pub open spec fn string_from(t: SpecToken) -> Result<SpecExpression, SpecParserError> {
    if t.token_type == TokenType::String {
        Ok(SpecExpression::Str(t.literal, t.pos))
    } else {
        Err(SpecParserError::NotAString(t))
    }
}

impl Identifier {
    /// The name that an `Identifier` token holds.
    pub fn from_token(value: Token) -> (r: Result<Identifier, ParserError>)
        ensures
            match r {
                Ok(i) => identifier_from(value@) == Ok::<SpecIdentifier, SpecParserError>(i@),
                Err(e) => identifier_from(value@) == Err::<SpecIdentifier, SpecParserError>(e.model()),
            },
    {
        if value.token_type == TokenType::Identifier {
            Ok(Identifier { value: value.literal, token_position: value.pos })
        } else {
            Err(ParserError::TokenIsNotAnIdentifier(value))
        }
    }

    /// The name that an identifier expression holds.
    pub fn from_expression(value: Expression) -> (r: Result<Identifier, ParserError>)
        ensures
            match r {
                Ok(i) => value.model() == SpecExpression::Identifier(i@),
                Err(e) => !(value.model() is Identifier) && e.model()
                    == SpecParserError::ExpressionIsNotAnIdentifier(value.model()),
            },
    {
        match value {
            Expression::Identifier(ident) => Ok(*ident),
            exp => Err(ParserError::ExpressionIsNotAnIdentifier(exp)),
        }
    }
}

impl IntegerLiteral {
    /// The number that a `Number` token spells.
    pub fn from_token(value: Token) -> (r: Result<IntegerLiteral, ParseFail>)
        ensures
            match r {
                Ok(i) => integer_from(value@) == Ok::<SpecExpression, SpecFail>(
                    SpecExpression::Integer(i.value, i.token_position),
                ),
                Err(f) => integer_from(value@) == Err::<SpecExpression, SpecFail>(f.model()),
            },
    {
        if value.token_type == TokenType::Number {
            let digits = crate::text::chars_of(value.literal.as_str());
            match decimal_value(&digits) {
                Some(v) => Ok(IntegerLiteral { value: v, token_position: value.pos }),
                None => Err(ParseFail::InvalidNumber(value)),
            }
        } else {
            Err(ParseFail::Error(ParserError::NotANumber(value)))
        }
    }
}

impl BooleanLiteral {
    /// The truth value that a `true` or `false` token names.
    pub fn from_token(value: Token) -> (r: Result<BooleanLiteral, ParserError>)
        ensures
            match r {
                Ok(b) => boolean_from(value@) == Ok::<SpecExpression, SpecParserError>(
                    SpecExpression::Boolean(b.value, b.token_position),
                ),
                Err(e) => boolean_from(value@) == Err::<SpecExpression, SpecParserError>(e.model()),
            },
    {
        if value.token_type == TokenType::True {
            Ok(BooleanLiteral { value: true, token_position: value.pos })
        } else if value.token_type == TokenType::False {
            Ok(BooleanLiteral { value: false, token_position: value.pos })
        } else {
            Err(ParserError::NotABoolean(value))
        }
    }
}

impl StringLiteral {
    /// The text that a `String` token holds.
    pub fn from_token(value: Token) -> (r: Result<StringLiteral, ParserError>)
        ensures
            match r {
                Ok(s) => string_from(value@) == Ok::<SpecExpression, SpecParserError>(
                    SpecExpression::Str(s.value@, s.token_position),
                ),
                Err(e) => string_from(value@) == Err::<SpecExpression, SpecParserError>(e.model()),
            },
    {
        if value.token_type == TokenType::String {
            Ok(StringLiteral { value: value.literal, token_position: value.pos })
        } else {
            Err(ParserError::NotAString(value))
        }
    }
}

impl BlockStatement {
    /// A block with no statement.
    pub fn empty() -> (r: BlockStatement)
        ensures
            r.body@.len() == 0,
            r.model() == Seq::<SpecStatement>::empty(),
    {
        let r = BlockStatement { body: Vec::new() };
        assert(r.model() =~= Seq::<SpecStatement>::empty());
        r
    }
}

impl From<AssignStatement> for Statement {
    fn from(v: AssignStatement) -> (r: Statement) {
        Statement::Assign(Box::new(v))
    }
}

impl vstd::std_specs::convert::FromSpecImpl<AssignStatement> for Statement {
    open spec fn obeys_from_spec() -> bool {
        true
    }

    open spec fn from_spec(v: AssignStatement) -> Statement {
        Statement::Assign(Box::new(v))
    }
}

impl From<ReturnStatement> for Statement {
    fn from(v: ReturnStatement) -> (r: Statement) {
        Statement::Return(Box::new(v))
    }
}

impl vstd::std_specs::convert::FromSpecImpl<ReturnStatement> for Statement {
    open spec fn obeys_from_spec() -> bool {
        true
    }

    open spec fn from_spec(v: ReturnStatement) -> Statement {
        Statement::Return(Box::new(v))
    }
}

impl From<ExpressionStatement> for Statement {
    fn from(v: ExpressionStatement) -> (r: Statement) {
        Statement::Expression(Box::new(v))
    }
}

impl vstd::std_specs::convert::FromSpecImpl<ExpressionStatement> for Statement {
    open spec fn obeys_from_spec() -> bool {
        true
    }

    open spec fn from_spec(v: ExpressionStatement) -> Statement {
        Statement::Expression(Box::new(v))
    }
}

impl From<BlockStatement> for Statement {
    fn from(v: BlockStatement) -> (r: Statement) {
        Statement::Block(Box::new(v))
    }
}

impl vstd::std_specs::convert::FromSpecImpl<BlockStatement> for Statement {
    open spec fn obeys_from_spec() -> bool {
        true
    }

    open spec fn from_spec(v: BlockStatement) -> Statement {
        Statement::Block(Box::new(v))
    }
}

impl From<IfStatement> for Statement {
    fn from(v: IfStatement) -> (r: Statement) {
        Statement::If(Box::new(v))
    }
}

impl vstd::std_specs::convert::FromSpecImpl<IfStatement> for Statement {
    open spec fn obeys_from_spec() -> bool {
        true
    }

    open spec fn from_spec(v: IfStatement) -> Statement {
        Statement::If(Box::new(v))
    }
}

impl From<ProcedureStatement> for Statement {
    fn from(v: ProcedureStatement) -> (r: Statement) {
        Statement::Procedure(Box::new(v))
    }
}

impl vstd::std_specs::convert::FromSpecImpl<ProcedureStatement> for Statement {
    open spec fn obeys_from_spec() -> bool {
        true
    }

    open spec fn from_spec(v: ProcedureStatement) -> Statement {
        Statement::Procedure(Box::new(v))
    }
}

impl From<WhileStatement> for Statement {
    fn from(v: WhileStatement) -> (r: Statement) {
        Statement::While(Box::new(v))
    }
}

impl vstd::std_specs::convert::FromSpecImpl<WhileStatement> for Statement {
    open spec fn obeys_from_spec() -> bool {
        true
    }

    open spec fn from_spec(v: WhileStatement) -> Statement {
        Statement::While(Box::new(v))
    }
}

impl From<ForLoopStatement> for Statement {
    fn from(v: ForLoopStatement) -> (r: Statement) {
        Statement::ForLoop(Box::new(v))
    }
}

impl vstd::std_specs::convert::FromSpecImpl<ForLoopStatement> for Statement {
    open spec fn obeys_from_spec() -> bool {
        true
    }

    open spec fn from_spec(v: ForLoopStatement) -> Statement {
        Statement::ForLoop(Box::new(v))
    }
}

impl From<Identifier> for Expression {
    fn from(v: Identifier) -> (r: Expression) {
        Expression::Identifier(Box::new(v))
    }
}

impl vstd::std_specs::convert::FromSpecImpl<Identifier> for Expression {
    open spec fn obeys_from_spec() -> bool {
        true
    }

    open spec fn from_spec(v: Identifier) -> Expression {
        Expression::Identifier(Box::new(v))
    }
}

impl From<IntegerLiteral> for Expression {
    fn from(v: IntegerLiteral) -> (r: Expression) {
        Expression::IntegerLiteral(Box::new(v))
    }
}

impl vstd::std_specs::convert::FromSpecImpl<IntegerLiteral> for Expression {
    open spec fn obeys_from_spec() -> bool {
        true
    }

    open spec fn from_spec(v: IntegerLiteral) -> Expression {
        Expression::IntegerLiteral(Box::new(v))
    }
}

impl From<BooleanLiteral> for Expression {
    fn from(v: BooleanLiteral) -> (r: Expression) {
        Expression::BooleanLiteral(Box::new(v))
    }
}

impl vstd::std_specs::convert::FromSpecImpl<BooleanLiteral> for Expression {
    open spec fn obeys_from_spec() -> bool {
        true
    }

    open spec fn from_spec(v: BooleanLiteral) -> Expression {
        Expression::BooleanLiteral(Box::new(v))
    }
}

impl From<StringLiteral> for Expression {
    fn from(v: StringLiteral) -> (r: Expression) {
        Expression::StringLiteral(Box::new(v))
    }
}

impl vstd::std_specs::convert::FromSpecImpl<StringLiteral> for Expression {
    open spec fn obeys_from_spec() -> bool {
        true
    }

    open spec fn from_spec(v: StringLiteral) -> Expression {
        Expression::StringLiteral(Box::new(v))
    }
}

impl From<PrefixExpression> for Expression {
    fn from(v: PrefixExpression) -> (r: Expression) {
        Expression::Prefix(Box::new(v))
    }
}

impl vstd::std_specs::convert::FromSpecImpl<PrefixExpression> for Expression {
    open spec fn obeys_from_spec() -> bool {
        true
    }

    open spec fn from_spec(v: PrefixExpression) -> Expression {
        Expression::Prefix(Box::new(v))
    }
}

impl From<InfixExpression> for Expression {
    fn from(v: InfixExpression) -> (r: Expression) {
        Expression::Infix(Box::new(v))
    }
}

impl vstd::std_specs::convert::FromSpecImpl<InfixExpression> for Expression {
    open spec fn obeys_from_spec() -> bool {
        true
    }

    open spec fn from_spec(v: InfixExpression) -> Expression {
        Expression::Infix(Box::new(v))
    }
}

impl From<FunctionCallExpression> for Expression {
    fn from(v: FunctionCallExpression) -> (r: Expression) {
        Expression::FunctionCall(Box::new(v))
    }
}

impl vstd::std_specs::convert::FromSpecImpl<FunctionCallExpression> for Expression {
    open spec fn obeys_from_spec() -> bool {
        true
    }

    open spec fn from_spec(v: FunctionCallExpression) -> Expression {
        Expression::FunctionCall(Box::new(v))
    }
}

} // verus!
