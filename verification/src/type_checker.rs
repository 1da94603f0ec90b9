//! The type checker: infers the type of each expression, records the type of
//! each variable as it is assigned, and collects the type errors.
//!
//! When the type of an expression cannot be inferred because it uses a
//! variable whose assignment already failed, the expression is let through
//! (`None`), and a variable assigned such an expression is failed in turn,
//! so that one mistake is reported once.
use vstd::prelude::*;
use crate::ast::{
    AssignStatement, BlockStatement, BooleanLiteral, Expression, ExpressionStatement,
    Identifier, IfStatement, InfixExpression, IntegerLiteral, PrefixExpression, ProgramRoot,
    SpecExpression, SpecStatement, Statement, StringLiteral, WhileStatement,
};
use crate::position::{PositionInfo, TokenPosition};
use crate::token::{SpecToken, TokenType};

verus! {

/// A type of the language.
#[derive(Debug, PartialEq, Eq, Hash)]
pub enum Type {
    Int,
    Boolean,
    String,
    Other(String),
}

/// What a type is.
pub enum SpecType {
    Int,
    Boolean,
    Str,
    Other(Seq<char>),
}

impl Type {
    pub open spec fn model(self) -> SpecType {
        match self {
            Type::Int => SpecType::Int,
            Type::Boolean => SpecType::Boolean,
            Type::String => SpecType::Str,
            Type::Other(s) => SpecType::Other(s@),
        }
    }

    /// A copy of this type.
    pub fn duplicate(&self) -> (r: Type)
        ensures
            r.model() == self.model(),
    {
        match self {
            Type::Int => Type::Int,
            Type::Boolean => Type::Boolean,
            Type::String => Type::String,
            Type::Other(s) => Type::Other(s.clone()),
        }
    }
}

/// A type error.
#[derive(Debug, PartialEq)]
pub enum TypeError {
    UndeclaredVariable { variable: String, range: TokenPosition },
    UnapplicableTypeForInfix { operator: TokenType, left: Type, right: Type, range: TokenPosition },
    UnapplicableTypeForPrefix { operator: TokenType, right: Type, range: TokenPosition },
    ExpectedBooleanForCondition { got: Type, range: TokenPosition },
}

/// What a type error is.
pub enum SpecTypeError {
    UndeclaredVariable { variable: Seq<char>, range: TokenPosition },
    UnapplicableTypeForInfix {
        operator: TokenType,
        left: SpecType,
        right: SpecType,
        range: TokenPosition,
    },
    UnapplicableTypeForPrefix { operator: TokenType, right: SpecType, range: TokenPosition },
    ExpectedBooleanForCondition { got: SpecType, range: TokenPosition },
}

impl TypeError {
    pub open spec fn model(self) -> SpecTypeError {
        match self {
            TypeError::UndeclaredVariable { variable, range } => SpecTypeError::UndeclaredVariable {
                variable: variable@,
                range,
            },
            TypeError::UnapplicableTypeForInfix { operator, left, right, range } => {
                SpecTypeError::UnapplicableTypeForInfix {
                    operator,
                    left: left.model(),
                    right: right.model(),
                    range,
                }
            },
            TypeError::UnapplicableTypeForPrefix { operator, right, range } => {
                SpecTypeError::UnapplicableTypeForPrefix { operator, right: right.model(), range }
            },
            TypeError::ExpectedBooleanForCondition { got, range } => {
                SpecTypeError::ExpectedBooleanForCondition { got: got.model(), range }
            },
        }
    }

    /// A copy of this error.
    pub fn duplicate(&self) -> (r: TypeError)
        ensures
            r.model() == self.model(),
    {
        match self {
            TypeError::UndeclaredVariable { variable, range } => TypeError::UndeclaredVariable {
                variable: variable.clone(),
                range: *range,
            },
            TypeError::UnapplicableTypeForInfix { operator, left, right, range } => {
                TypeError::UnapplicableTypeForInfix {
                    operator: *operator,
                    left: left.duplicate(),
                    right: right.duplicate(),
                    range: *range,
                }
            },
            TypeError::UnapplicableTypeForPrefix { operator, right, range } => {
                TypeError::UnapplicableTypeForPrefix {
                    operator: *operator,
                    right: right.duplicate(),
                    range: *range,
                }
            },
            TypeError::ExpectedBooleanForCondition { got, range } => {
                TypeError::ExpectedBooleanForCondition { got: got.duplicate(), range: *range }
            },
        }
    }
}

/// One type error, or several.
#[derive(Debug, PartialEq)]
pub enum TypeErrors {
    SingleErr(TypeError),
    MultipleErrs(Vec<TypeError>),
}

/// What `TypeErrors` are.
pub enum SpecTypeErrors {
    Single(SpecTypeError),
    Multiple(Seq<SpecTypeError>),
}

/// The models of a list of type errors.
pub open spec fn errors_model(v: Seq<TypeError>) -> Seq<SpecTypeError> {
    v.map_values(|e: TypeError| e.model())
}

impl SpecTypeErrors {
    /// The errors, in order.
    pub open spec fn flatten(self) -> Seq<SpecTypeError> {
        match self {
            SpecTypeErrors::Single(e) => seq![e],
            SpecTypeErrors::Multiple(v) => v,
        }
    }
}

/// What merging gives: all the errors of `a`, then those of `b`.
pub open spec fn merged(a: SpecTypeErrors, b: SpecTypeErrors) -> SpecTypeErrors {
    SpecTypeErrors::Multiple(a.flatten() + b.flatten())
}

/// The errors gathered so far, once the outcome `b` is added to them.
pub open spec fn merged_with(a: Option<SpecTypeErrors>, b: Result<(), SpecTypeErrors>) -> Option<
    SpecTypeErrors,
> {
    match b {
        Ok(_) => a,
        Err(e) => match a {
            Some(errs) => Some(merged(errs, e)),
            None => Some(e),
        },
    }
}

/// The outcome that gathered errors make.
pub open spec fn as_outcome(a: Option<SpecTypeErrors>) -> Result<(), SpecTypeErrors> {
    match a {
        Some(e) => Err(e),
        None => Ok(()),
    }
}

/// The errors in order, none for `None`.
pub open spec fn flatten_option(a: Option<SpecTypeErrors>) -> Seq<SpecTypeError> {
    match a {
        Some(e) => e.flatten(),
        None => Seq::empty(),
    }
}

impl TypeErrors {
    pub open spec fn model(self) -> SpecTypeErrors {
        match self {
            TypeErrors::SingleErr(e) => SpecTypeErrors::Single(e.model()),
            TypeErrors::MultipleErrs(v) => SpecTypeErrors::Multiple(errors_model(v@)),
        }
    }

    /// Appends copies of these errors to `x`.
    fn extend_into(&self, x: &mut Vec<TypeError>)
        ensures
            errors_model(final(x)@) == errors_model(old(x)@) + self.model().flatten(),
    {
        match self {
            TypeErrors::SingleErr(err) => {
                let ghost before = errors_model(x@);
                x.push(err.duplicate());
                assert(errors_model(x@) =~= before + seq![err.model()]);
            },
            TypeErrors::MultipleErrs(errs) => {
                let mut i: usize = 0;
                while i < errs.len()
                    invariant
                        i <= errs.len(),
                        errors_model(x@) == errors_model(old(x)@) + errors_model(errs@.take(i as int)),
                    decreases errs.len() - i,
                {
                    let ghost before = errors_model(x@);
                    x.push(errs[i].duplicate());
                    assert(errors_model(x@) =~= before + seq![errs[i as int].model()]);
                    assert(errors_model(errs@.take(i + 1)) =~= errors_model(errs@.take(i as int))
                        + seq![errs[i as int].model()]);
                    i = i + 1;
                }
                assert(errs@.take(errs.len() as int) =~= errs@);
            },
        }
    }

    /// All the errors of `self`, then those of `b`, as several errors.
    pub fn merge(&self, b: &TypeErrors) -> (r: TypeErrors)
        ensures
            r.model() == merged(self.model(), b.model()),
    {
        let mut x: Vec<TypeError> = Vec::new();
        assert(errors_model(x@) =~= Seq::<SpecTypeError>::empty());
        self.extend_into(&mut x);
        b.extend_into(&mut x);
        assert(errors_model(x@) =~= self.model().flatten() + b.model().flatten());
        TypeErrors::MultipleErrs(x)
    }

    /// Adds the errors of the outcome `b`, if any, to those gathered in `a`.
    pub fn merge_with<T>(a: &mut Option<TypeErrors>, b: Result<T, TypeErrors>)
        ensures
            option_model(*final(a)) == merged_with(
                option_model(*old(a)),
                match b {
                    Ok(_) => Ok(()),
                    Err(e) => Err(e.model()),
                },
            ),
    {
        if let Err(b_err) = b {
            let merged = match a {
                Some(errs) => Some(errs.merge(&b_err)),
                None => Some(b_err),
            };
            *a = merged;
        }
    }
}

/// The model of gathered errors.
pub open spec fn option_model(a: Option<TypeErrors>) -> Option<SpecTypeErrors> {
    match a {
        Some(e) => Some(e.model()),
        None => None,
    }
}

/// The model of an outcome.
pub open spec fn outcome_model(r: Result<(), TypeErrors>) -> Result<(), SpecTypeErrors> {
    match r {
        Ok(_) => Ok(()),
        Err(e) => Err(e.model()),
    }
}

impl From<TypeError> for TypeErrors {
    fn from(value: TypeError) -> (r: TypeErrors) {
        TypeErrors::SingleErr(value)
    }
}

impl vstd::std_specs::convert::FromSpecImpl<TypeError> for TypeErrors {
    open spec fn obeys_from_spec() -> bool {
        true
    }

    open spec fn from_spec(value: TypeError) -> TypeErrors {
        TypeErrors::SingleErr(value)
    }
}

/// The outcome that gathered errors make.
pub fn get_result(errs: Option<TypeErrors>) -> (r: Result<(), TypeErrors>)
    ensures
        outcome_model(r) == as_outcome(option_model(errs)),
{
    match errs {
        Some(errs) => Err(errs),
        None => Ok(()),
    }
}

/// Merging is associative: the errors come out in the same order however the
/// merges are grouped.
pub proof fn lemma_merge_associative(a: SpecTypeErrors, b: SpecTypeErrors, c: SpecTypeErrors)
    ensures
        merged(merged(a, b), c) == merged(a, merged(b, c)),
{
    assert(a.flatten() + b.flatten() + c.flatten() =~= a.flatten() + (b.flatten() + c.flatten()));
}

/// The type that the latest entry for `k` in `s` gives, if any.
pub open spec fn lookup_in(s: Seq<(String, Type)>, k: Seq<char>) -> Option<SpecType>
    decreases s.len(),
{
    if s.len() == 0 {
        None
    } else if s.last().0@ == k {
        Some(s.last().1.model())
    } else {
        lookup_in(s.drop_last(), k)
    }
}

/// Replacing the type of the latest entry of a name changes what that name
/// gives, and nothing else.
proof fn lemma_lookup_update(s: Seq<(String, Type)>, idx: int, e: (String, Type), k: Seq<char>)
    requires
        0 <= idx < s.len(),
        s[idx].0@ == e.0@,
        forall|j: int| idx < j < s.len() ==> s[j].0@ != e.0@,
    ensures
        lookup_in(s.update(idx, e), k) == if k == e.0@ {
            Some(e.1.model())
        } else {
            lookup_in(s, k)
        },
    decreases s.len(),
{
    if idx < s.len() - 1 {
        lemma_lookup_update(s.drop_last(), idx, e, k);
        assert(s.update(idx, e).drop_last() =~= s.drop_last().update(idx, e));
    } else {
        assert(s.update(idx, e).drop_last() =~= s.drop_last());
    }
}

/// The variables whose type is known, with their types; no name occurs twice.
pub struct Environment {
    entries: Vec<(String, Type)>,
}

impl Environment {
    pub closed spec fn wf(self) -> bool {
        forall|i: int, j: int|
            0 <= i < j < self.entries@.len() ==> self.entries@[i].0@ != self.entries@[j].0@
    }

    /// The type of the variable `k`, if known.
    pub closed spec fn lookup(self, k: Seq<char>) -> Option<SpecType> {
        lookup_in(self.entries@, k)
    }

    /// The known variables and their types.
    pub open spec fn map(self) -> Map<Seq<char>, SpecType> {
        Map::new(|k: Seq<char>| self.lookup(k) is Some, |k: Seq<char>| self.lookup(k).unwrap())
    }

    /// An environment with no variable.
    pub fn new() -> (r: Environment)
        ensures
            r.wf(),
            r.map() == Map::<Seq<char>, SpecType>::empty(),
    {
        let r = Environment { entries: Vec::new() };
        assert(r.map() =~= Map::<Seq<char>, SpecType>::empty());
        r
    }

    /// The type of the variable `name`, if known.
    pub fn get(&self, name: &String) -> (r: Option<Type>)
        ensures
            match r {
                Some(t) => self.map().contains_key(name@) && self.map()[name@] == t.model(),
                None => !self.map().contains_key(name@),
            },
    {
        let mut i = self.entries.len();
        assert(self.entries@.take(i as int) =~= self.entries@);
        while i > 0
            invariant
                i <= self.entries.len(),
                lookup_in(self.entries@.take(i as int), name@) == self.lookup(name@),
            decreases i,
        {
            assert(self.entries@.take(i as int).drop_last() =~= self.entries@.take(i - 1));
            if self.entries[i - 1].0 == *name {
                return Some(self.entries[i - 1].1.duplicate());
            }
            i = i - 1;
        }
        None
    }

    /// Records that the variable `name` has the type `t`.
    pub fn insert(&mut self, name: String, t: Type)
        requires
            old(self).wf(),
        ensures
            final(self).wf(),
            final(self).map() == old(self).map().insert(name@, t.model()),
    {
        let mut i = self.entries.len();
        while i > 0
            invariant
                i <= self.entries.len(),
                self.entries@ == old(self).entries@,
                old(self).wf(),
                forall|j: int| i <= j < self.entries@.len() ==> self.entries@[j].0@ != name@,
            decreases i,
        {
            if self.entries[i - 1].0 == name {
                let ghost before = self.entries@;
                let ghost entry = (name, t);
                self.entries.set(i - 1, (name, t));
                proof {
                    assert(forall|j: int|
                        0 <= j < self.entries@.len() ==> #[trigger] self.entries@[j].0@ == before[j].0@);
                    assert forall|a: int, b: int|
                        0 <= a < b < self.entries@.len() implies self.entries@[a].0@
                        != self.entries@[b].0@ by {
                        assert(self.entries@[a].0@ == before[a].0@);
                        assert(self.entries@[b].0@ == before[b].0@);
                    }
                    assert forall|k: Seq<char>| lookup_in(self.entries@, k) == (if k == entry.0@ {
                        Some(entry.1.model())
                    } else {
                        lookup_in(before, k)
                    }) by {
                        lemma_lookup_update(before, i - 1, entry, k);
                    }
                    assert(self.map() =~= old(self).map().insert(entry.0@, entry.1.model()));
                }
                return ;
            }
            i = i - 1;
        }
        let ghost before = self.entries@;
        let ghost entry = (name, t);
        self.entries.push((name, t));
        proof {
            assert(self.entries@.drop_last() =~= before);
            assert(self.map() =~= old(self).map().insert(entry.0@, entry.1.model()));
        }
    }
}

/// Names, none twice.
pub struct NameSet {
    names: Vec<String>,
}

impl NameSet {
    /// The names held.
    pub closed spec fn set(self) -> Set<Seq<char>> {
        Set::new(|k: Seq<char>| exists|i: int| 0 <= i < self.names@.len() && self.names@[i]@ == k)
    }

    /// A set with no name.
    pub fn new() -> (r: NameSet)
        ensures
            r.set() == Set::<Seq<char>>::empty(),
    {
        let r = NameSet { names: Vec::new() };
        assert(r.set() =~= Set::<Seq<char>>::empty());
        r
    }

    /// Whether `name` is held.
    pub fn contains(&self, name: &String) -> (r: bool)
        ensures
            r == self.set().contains(name@),
    {
        let mut i: usize = 0;
        while i < self.names.len()
            invariant
                i <= self.names.len(),
                forall|j: int| 0 <= j < i ==> self.names@[j]@ != name@,
            decreases self.names.len() - i,
        {
            if self.names[i] == *name {
                return true;
            }
            i = i + 1;
        }
        false
    }

    /// Adds `name`.
    pub fn insert(&mut self, name: String)
        ensures
            final(self).set() == old(self).set().insert(name@),
    {
        if !self.contains(&name) {
            let ghost n = name@;
            self.names.push(name);
            proof {
                assert(self.set() =~= old(self).set().insert(n)) by {
                    assert(self.names@[self.names@.len() - 1]@ == n);
                    assert forall|k: Seq<char>| old(self).set().contains(k) implies self.set().contains(k) by {
                        let i = choose|i: int| 0 <= i < old(self).names@.len() && old(self).names@[i]@ == k;
                        assert(self.names@[i] == old(self).names@[i]);
                    }
                }
            }
        } else {
            assert(old(self).set().insert(name@) =~= old(self).set());
        }
    }
}

/// What the checker knows: the type of each variable assigned so far, and the
/// variables whose assignment failed.
pub struct SpecChecker {
    pub env: Map<Seq<char>, SpecType>,
    pub broken: Set<Seq<char>>,
}

/// The placeholder span of type errors.
pub open spec fn no_range() -> TokenPosition {
    TokenPosition { from: PositionInfo { line: 0, index: 0 }, to: PositionInfo { line: 0, index: 0 } }
}

/// The tables of the infix operators.
#[derive(Clone, Copy)]
pub enum InfixTable {
    /// `==` and `!=`: two integers, two Booleans or two strings give a Boolean.
    Equality,
    /// `<`, `<=`, `>`, `>=`: two integers give a Boolean.
    Comparison,
    /// `+`, `-`, `*`, `/`: two integers give an integer.
    Math,
}

/// The tables of the prefix operators.
#[derive(Clone, Copy)]
pub enum PrefixTable {
    /// `+` and `-`: an integer gives an integer.
    Math,
    /// `NOT`: a Boolean gives a Boolean.
    Not,
}

/// The type that an infix table gives to two operand types.
pub open spec fn infix_entry(table: InfixTable, l: SpecType, r: SpecType) -> Option<SpecType> {
    match table {
        InfixTable::Equality => match (l, r) {
            (SpecType::Int, SpecType::Int) => Some(SpecType::Boolean),
            (SpecType::Boolean, SpecType::Boolean) => Some(SpecType::Boolean),
            (SpecType::Str, SpecType::Str) => Some(SpecType::Boolean),
            _ => None,
        },
        InfixTable::Comparison => match (l, r) {
            (SpecType::Int, SpecType::Int) => Some(SpecType::Boolean),
            _ => None,
        },
        InfixTable::Math => match (l, r) {
            (SpecType::Int, SpecType::Int) => Some(SpecType::Int),
            _ => None,
        },
    }
}

/// The type that a prefix table gives to an operand type.
pub open spec fn prefix_entry(table: PrefixTable, r: SpecType) -> Option<SpecType> {
    match table {
        PrefixTable::Math => match r {
            SpecType::Int => Some(SpecType::Int),
            _ => None,
        },
        PrefixTable::Not => match r {
            SpecType::Boolean => Some(SpecType::Boolean),
            _ => None,
        },
    }
}

/// The table of an infix operator.
pub open spec fn infix_table_of(tt: TokenType) -> InfixTable {
    match tt {
        TokenType::Equal | TokenType::NotEqual => InfixTable::Equality,
        TokenType::Greater | TokenType::GreaterEqual | TokenType::Lesser | TokenType::LesserEqual => {
            InfixTable::Comparison
        },
        _ => InfixTable::Math,
    }
}

/// The table of a prefix operator.
pub open spec fn prefix_table_of(tt: TokenType) -> PrefixTable {
    match tt {
        TokenType::Not => PrefixTable::Not,
        _ => PrefixTable::Math,
    }
}

/// What the checker infers of an infix operation whose operands gave `left` and `right`.
pub open spec fn infix_rule(
    table: InfixTable,
    operator: TokenType,
    left: Option<Result<SpecType, SpecTypeError>>,
    right: Option<Result<SpecType, SpecTypeError>>,
) -> Option<Result<SpecType, SpecTypeError>> {
    match (left, right) {
        (Some(l), Some(r)) => match l {
            Err(e) => Some(Err(e)),
            Ok(lt) => match r {
                Err(e) => Some(Err(e)),
                Ok(rt) => match infix_entry(table, lt, rt) {
                    Some(t) => Some(Ok(t)),
                    None => Some(
                        Err(
                            SpecTypeError::UnapplicableTypeForInfix {
                                operator,
                                left: lt,
                                right: rt,
                                range: no_range(),
                            },
                        ),
                    ),
                },
            },
        },
        _ => None,
    }
}

/// What the checker infers of a prefix operation whose operand gave `right`.
pub open spec fn prefix_rule(
    table: PrefixTable,
    operator: TokenType,
    right: Option<Result<SpecType, SpecTypeError>>,
) -> Option<Result<SpecType, SpecTypeError>> {
    match right {
        Some(r) => match r {
            Err(e) => Some(Err(e)),
            Ok(rt) => match prefix_entry(table, rt) {
                Some(t) => Some(Ok(t)),
                None => Some(
                    Err(
                        SpecTypeError::UnapplicableTypeForPrefix {
                            operator,
                            right: rt,
                            range: no_range(),
                        },
                    ),
                ),
            },
        },
        None => None,
    }
}

/// Whether the checker handles `e`: no call, and operators it has a table for.
pub open spec fn checkable_expression(e: SpecExpression) -> bool
    decreases e,
{
    match e {
        SpecExpression::Prefix(op, right) => crate::visitor::dispatches_prefix(op.token_type)
            && checkable_expression(*right),
        SpecExpression::Infix(left, op, right) => crate::visitor::dispatches_infix(op.token_type)
            && checkable_expression(*left) && checkable_expression(*right),
        SpecExpression::Call(_, _) => false,
        _ => true,
    }
}

/// What the checker infers of `e`: its type, a type error, or nothing when `e`
/// uses a variable whose assignment failed.
pub open spec fn infer(st: SpecChecker, e: SpecExpression) -> Option<Result<SpecType, SpecTypeError>>
    decreases e,
{
    match e {
        SpecExpression::Identifier(i) => if st.broken.contains(i.value) {
            None
        } else if st.env.contains_key(i.value) {
            Some(Ok(st.env[i.value]))
        } else {
            Some(Err(SpecTypeError::UndeclaredVariable { variable: i.value, range: no_range() }))
        },
        SpecExpression::Integer(_, _) => Some(Ok(SpecType::Int)),
        SpecExpression::Boolean(_, _) => Some(Ok(SpecType::Boolean)),
        SpecExpression::Str(_, _) => Some(Ok(SpecType::Str)),
        SpecExpression::Prefix(op, right) => prefix_rule(
            prefix_table_of(op.token_type),
            op.token_type,
            infer(st, *right),
        ),
        SpecExpression::Infix(left, op, right) => infix_rule(
            infix_table_of(op.token_type),
            op.token_type,
            infer(st, *left),
            infer(st, *right),
        ),
        SpecExpression::Call(_, _) => None,
    }
}

/// Whether `tt` compares two numbers: `<`, `<=`, `>`, `>=`.
pub open spec fn is_ordering(tt: TokenType) -> bool {
    tt is Lesser || tt is LesserEqual || tt is Greater || tt is GreaterEqual
}

/// Whether `tt` is an arithmetic operator: `+`, `-`, `*`, `/`.
pub open spec fn is_arithmetic(tt: TokenType) -> bool {
    tt is Plus || tt is Minus || tt is Multiply || tt is Divide
}

/// The types of infix operations whose operands have the types `lt` and `rt`:
/// on two integers, the arithmetic operators give an integer and the
/// comparisons (`==`, `!=`, `<`, `<=`, `>`, `>=`) a Boolean; on two Booleans
/// or two strings, `==` and `!=` give a Boolean and the other operators are
/// an error naming the operator and both types, as operands of two different
/// types are for every operator.
pub proof fn lemma_infix_types(
    st: SpecChecker,
    left: SpecExpression,
    op: SpecToken,
    right: SpecExpression,
    lt: SpecType,
    rt: SpecType,
)
    requires
        infer(st, left) == Some(Ok::<SpecType, SpecTypeError>(lt)),
        infer(st, right) == Some(Ok::<SpecType, SpecTypeError>(rt)),
    ensures
        ({
            let tt = op.token_type;
            let r = infer(st, SpecExpression::Infix(Box::new(left), op, Box::new(right)));
            let refused = Some(
                Err::<SpecType, SpecTypeError>(
                    SpecTypeError::UnapplicableTypeForInfix {
                        operator: tt,
                        left: lt,
                        right: rt,
                        range: no_range(),
                    },
                ),
            );
            &&& lt == SpecType::Int && rt == SpecType::Int && is_arithmetic(tt) ==> r == Some(
                Ok::<SpecType, SpecTypeError>(SpecType::Int),
            )
            &&& lt == SpecType::Int && rt == SpecType::Int && (is_ordering(tt) || tt is Equal
                || tt is NotEqual) ==> r == Some(Ok::<SpecType, SpecTypeError>(SpecType::Boolean))
            &&& (lt == SpecType::Boolean || lt == SpecType::Str) && rt == lt && (tt is Equal
                || tt is NotEqual) ==> r == Some(Ok::<SpecType, SpecTypeError>(SpecType::Boolean))
            &&& (lt == SpecType::Boolean || lt == SpecType::Str) && rt == lt && (is_ordering(tt)
                || is_arithmetic(tt)) ==> r == refused
            &&& lt != rt ==> r == refused
        }),
{
}

/// The types of prefix operations whose operand has the type `rt`: `+` and
/// `-` on an integer give an integer, `NOT` on a Boolean gives a Boolean, and
/// any other pairing is an error naming the operator and the type.
pub proof fn lemma_prefix_types(st: SpecChecker, op: SpecToken, right: SpecExpression, rt: SpecType)
    requires
        infer(st, right) == Some(Ok::<SpecType, SpecTypeError>(rt)),
    ensures
        ({
            let tt = op.token_type;
            let r = infer(st, SpecExpression::Prefix(op, Box::new(right)));
            let refused = Some(
                Err::<SpecType, SpecTypeError>(
                    SpecTypeError::UnapplicableTypeForPrefix { operator: tt, right: rt, range: no_range() },
                ),
            );
            &&& (tt is Plus || tt is Minus) ==> r == if rt == SpecType::Int {
                Some(Ok::<SpecType, SpecTypeError>(SpecType::Int))
            } else {
                refused
            }
            &&& tt is Not ==> r == if rt == SpecType::Boolean {
                Some(Ok::<SpecType, SpecTypeError>(SpecType::Boolean))
            } else {
                refused
            }
        }),
{
}

/// Whether the checker handles `s`: no `return`, procedure or `for` loop, and
/// only expressions it handles.
pub open spec fn checkable_statement(s: SpecStatement) -> bool
    decreases s,
{
    match s {
        SpecStatement::Assign(_, e) => checkable_expression(e),
        SpecStatement::Expression(e) => checkable_expression(e),
        SpecStatement::Block(b) => checkable_block(b),
        SpecStatement::If(c, t, e) => checkable_expression(c) && checkable_block(t) && checkable_block(e),
        SpecStatement::While(c, b) => checkable_expression(c) && checkable_block(b),
        _ => false,
    }
}

/// Whether the checker handles all the statements `b`.
pub open spec fn checkable_block(b: Seq<SpecStatement>) -> bool
    decreases b,
{
    if b.len() == 0 {
        true
    } else {
        checkable_block(b.drop_last()) && checkable_statement(b.last())
    }
}

/// What checking a condition gives: an error when its type is known and is
/// not Boolean.
pub open spec fn condition_outcome(st: SpecChecker, c: SpecExpression) -> Result<(), SpecTypeErrors> {
    match infer(st, c) {
        None => Ok(()),
        Some(Err(e)) => Err(SpecTypeErrors::Single(e)),
        Some(Ok(t)) => if t is Boolean {
            Ok(())
        } else {
            Err(
                SpecTypeErrors::Single(
                    SpecTypeError::ExpectedBooleanForCondition { got: t, range: no_range() },
                ),
            )
        },
    }
}

/// What checking `s` gives: what the checker knows after it, and its outcome.
pub open spec fn check_statement(st: SpecChecker, s: SpecStatement) -> (
    SpecChecker,
    Result<(), SpecTypeErrors>,
)
    decreases s,
{
    match s {
        SpecStatement::Assign(v, e) => match infer(st, e) {
            None => (SpecChecker { env: st.env, broken: st.broken.insert(v.value) }, Ok(())),
            Some(Ok(t)) => (SpecChecker { env: st.env.insert(v.value, t), broken: st.broken }, Ok(())),
            Some(Err(err)) => (
                SpecChecker { env: st.env, broken: st.broken.insert(v.value) },
                Err(SpecTypeErrors::Single(err)),
            ),
        },
        SpecStatement::Expression(e) => (
            st,
            match infer(st, e) {
                Some(Err(err)) => Err(SpecTypeErrors::Single(err)),
                _ => Ok(()),
            },
        ),
        SpecStatement::Block(b) => {
            let (st1, errs) = check_statements(st, b, None);
            (st1, as_outcome(errs))
        },
        SpecStatement::If(c, t, e) => {
            let e0 = merged_with(None, condition_outcome(st, c));
            let (st1, r1) = check_statements(st, t, None);
            let e1 = merged_with(e0, as_outcome(r1));
            let (st2, r2) = check_statements(st1, e, None);
            (st2, as_outcome(merged_with(e1, as_outcome(r2))))
        },
        SpecStatement::While(c, b) => {
            let e0 = merged_with(None, condition_outcome(st, c));
            let (st1, r1) = check_statements(st, b, None);
            (st1, as_outcome(merged_with(e0, as_outcome(r1))))
        },
        _ => (st, Ok(())),
    }
}

/// What checking the statements `b` in order gives, adding their errors to `errs`.
pub open spec fn check_statements(st: SpecChecker, b: Seq<SpecStatement>, errs: Option<SpecTypeErrors>) -> (
    SpecChecker,
    Option<SpecTypeErrors>,
)
    decreases b,
{
    if b.len() == 0 {
        (st, errs)
    } else {
        let (st1, e1) = check_statements(st, b.drop_last(), errs);
        let (st2, r) = check_statement(st1, b.last());
        (st2, merged_with(e1, r))
    }
}

/// The model of an inferred type.
pub open spec fn inferred_model(r: Option<Result<Type, TypeError>>) -> Option<
    Result<SpecType, SpecTypeError>,
> {
    match r {
        None => None,
        Some(Ok(t)) => Some(Ok(t.model())),
        Some(Err(e)) => Some(Err(e.model())),
    }
}

/// The type that an infix table gives to two operand types.
fn infix_lookup(table: InfixTable, l: &Type, r: &Type) -> (t: Option<Type>)
    ensures
        match t {
            Some(t) => infix_entry(table, l.model(), r.model()) == Some(t.model()),
            None => infix_entry(table, l.model(), r.model()) is None,
        },
{
    match table {
        InfixTable::Equality => match (l, r) {
            (Type::Int, Type::Int) => Some(Type::Boolean),
            (Type::Boolean, Type::Boolean) => Some(Type::Boolean),
            (Type::String, Type::String) => Some(Type::Boolean),
            _ => None,
        },
        InfixTable::Comparison => match (l, r) {
            (Type::Int, Type::Int) => Some(Type::Boolean),
            _ => None,
        },
        InfixTable::Math => match (l, r) {
            (Type::Int, Type::Int) => Some(Type::Int),
            _ => None,
        },
    }
}

/// The type that a prefix table gives to an operand type.
fn prefix_lookup(table: PrefixTable, r: &Type) -> (t: Option<Type>)
    ensures
        match t {
            Some(t) => prefix_entry(table, r.model()) == Some(t.model()),
            None => prefix_entry(table, r.model()) is None,
        },
{
    match table {
        PrefixTable::Math => match r {
            Type::Int => Some(Type::Int),
            _ => None,
        },
        PrefixTable::Not => match r {
            Type::Boolean => Some(Type::Boolean),
            _ => None,
        },
    }
}

/// The checker: the type of each variable assigned so far, and the variables
/// whose assignment failed.
pub struct TypeChecker {
    env_map: Environment,
    broken_var: NameSet,
}

impl TypeChecker {
    pub closed spec fn wf(self) -> bool {
        self.env_map.wf()
    }

    /// What the checker knows.
    pub closed spec fn state(self) -> SpecChecker {
        SpecChecker { env: self.env_map.map(), broken: self.broken_var.set() }
    }

    /// A checker that knows no variable.
    pub fn new() -> (r: TypeChecker)
        ensures
            r.wf(),
            r.state() == (SpecChecker {
                env: Map::<Seq<char>, SpecType>::empty(),
                broken: Set::<Seq<char>>::empty(),
            }),
    {
        TypeChecker { env_map: Environment::new(), broken_var: NameSet::new() }
    }

    /// Checks the statements of the program in order; gives all their errors,
    /// or `None` when there is none.
    pub fn check(&mut self, root: &ProgramRoot) -> (r: Option<TypeErrors>)
        requires
            old(self).wf(),
            checkable_block(root.model()),
        ensures
            final(self).wf(),
            (final(self).state(), option_model(r)) == check_statements(
                old(self).state(),
                root.model(),
                None,
            ),
    {
        let mut error: Option<TypeErrors> = None;
        let ghost b = root.model();
        let mut i: usize = 0;
        while i < root.0.body.len()
            invariant
                i <= root.0.body.len(),
                b == root.model(),
                checkable_block(b),
                self.wf(),
                (self.state(), option_model(error)) == check_statements(
                    old(self).state(),
                    b.take(i as int),
                    None,
                ),
            decreases root.0.body.len() - i,
        {
            proof {
                lemma_checkable_member(b, i as int);
                assert(b.take(i + 1).drop_last() =~= b.take(i as int));
            }
            let outcome = self.visit_statement(&root.0.body[i]);
            TypeErrors::merge_with(&mut error, outcome);
            i = i + 1;
        }
        assert(b.take(root.0.body.len() as int) =~= b);
        error
    }

    fn infix_helper(
        &mut self,
        table: InfixTable,
        infix: &InfixExpression,
        left: Option<Result<Type, TypeError>>,
        right: Option<Result<Type, TypeError>>,
    ) -> (r: Option<Result<Type, TypeError>>)
        ensures
            inferred_model(r) == infix_rule(
                table,
                infix.operator.token_type,
                inferred_model(left),
                inferred_model(right),
            ),
            *final(self) == *old(self),
    {
        match (left, right) {
            (Some(left), Some(right)) => {
                let left = match left {
                    Ok(t) => t,
                    Err(err) => {
                        return Some(Err(err));
                    },
                };
                let right = match right {
                    Ok(t) => t,
                    Err(err) => {
                        return Some(Err(err));
                    },
                };
                match infix_lookup(table, &left, &right) {
                    Some(t) => Some(Ok(t)),
                    None => Some(
                        Err(
                            TypeError::UnapplicableTypeForInfix {
                                operator: infix.operator.token_type,
                                left,
                                right,
                                range: TokenPosition::temp_default(),
                            },
                        ),
                    ),
                }
            },
            _ => None,
        }
    }

    fn prefix_helper(
        &mut self,
        table: PrefixTable,
        prefix: &PrefixExpression,
        right: Option<Result<Type, TypeError>>,
    ) -> (r: Option<Result<Type, TypeError>>)
        ensures
            inferred_model(r) == prefix_rule(table, prefix.operator.token_type, inferred_model(right)),
            *final(self) == *old(self),
    {
        match right {
            Some(right) => {
                let right = match right {
                    Ok(t) => t,
                    Err(err) => {
                        return Some(Err(err));
                    },
                };
                match prefix_lookup(table, &right) {
                    Some(t) => Some(Ok(t)),
                    None => Some(
                        Err(
                            TypeError::UnapplicableTypeForPrefix {
                                operator: prefix.operator.token_type,
                                right,
                                range: TokenPosition::temp_default(),
                            },
                        ),
                    ),
                }
            },
            None => None,
        }
    }

    /// Checks that a condition is Boolean.
    fn check_cond(&mut self, condition: &Expression) -> (r: Result<(), TypeErrors>)
        requires
            checkable_expression(condition.model()),
        ensures
            outcome_model(r) == condition_outcome(old(self).state(), condition.model()),
            *final(self) == *old(self),
    {
        let cond = self.visit_expression(condition);
        let cond = match cond {
            Some(c) => c,
            None => {
                return Ok(());
            },
        };
        let cond = match cond {
            Ok(t) => t,
            Err(e) => {
                return Err(TypeErrors::SingleErr(e));
            },
        };
        match cond {
            Type::Boolean => Ok(()),
            _ => Err(
                TypeErrors::SingleErr(
                    TypeError::ExpectedBooleanForCondition {
                        got: cond,
                        range: TokenPosition::temp_default(),
                    },
                ),
            ),
        }
    }

    /// What the checker infers of an expression.
    pub fn visit_expression(&mut self, expression: &Expression) -> (r: Option<Result<Type, TypeError>>)
        requires
            checkable_expression(expression.model()),
        ensures
            inferred_model(r) == infer(old(self).state(), expression.model()),
            *final(self) == *old(self),
        decreases expression,
    {
        match expression {
            Expression::Identifier(ident) => self.visit_identifier(ident),
            Expression::IntegerLiteral(literal) => self.visit_integer(literal),
            Expression::BooleanLiteral(literal) => self.visit_boolean(literal),
            Expression::StringLiteral(literal) => self.visit_string(literal),
            Expression::Prefix(prefix) => self.visit_prefix(prefix),
            Expression::Infix(infix) => self.visit_infix(infix),
            Expression::FunctionCall(_) => {
                proof {
                    assert(false);
                }
                None
            },
        }
    }

    fn visit_identifier(&mut self, ident: &Identifier) -> (r: Option<Result<Type, TypeError>>)
        ensures
            inferred_model(r) == infer(old(self).state(), SpecExpression::Identifier(ident@)),
            *final(self) == *old(self),
    {
        if self.broken_var.contains(&ident.value) {
            None
        } else if let Some(t) = self.env_map.get(&ident.value) {
            Some(Ok(t))
        } else {
            Some(
                Err(
                    TypeError::UndeclaredVariable {
                        range: TokenPosition::temp_default(),
                        variable: ident.value.clone(),
                    },
                ),
            )
        }
    }

    fn visit_integer(&mut self, literal: &IntegerLiteral) -> (r: Option<Result<Type, TypeError>>)
        ensures
            inferred_model(r) == Some(Ok::<SpecType, SpecTypeError>(SpecType::Int)),
            *final(self) == *old(self),
    {
        Some(Ok(Type::Int))
    }

    fn visit_boolean(&mut self, literal: &BooleanLiteral) -> (r: Option<Result<Type, TypeError>>)
        ensures
            inferred_model(r) == Some(Ok::<SpecType, SpecTypeError>(SpecType::Boolean)),
            *final(self) == *old(self),
    {
        Some(Ok(Type::Boolean))
    }

    fn visit_string(&mut self, literal: &StringLiteral) -> (r: Option<Result<Type, TypeError>>)
        ensures
            inferred_model(r) == Some(Ok::<SpecType, SpecTypeError>(SpecType::Str)),
            *final(self) == *old(self),
    {
        Some(Ok(Type::String))
    }

    fn visit_prefix(&mut self, prefix: &PrefixExpression) -> (r: Option<Result<Type, TypeError>>)
        requires
            crate::visitor::dispatches_prefix(prefix.operator.token_type),
            checkable_expression(prefix.right.model()),
        ensures
            inferred_model(r) == prefix_rule(
                prefix_table_of(prefix.operator.token_type),
                prefix.operator.token_type,
                infer(old(self).state(), prefix.right.model()),
            ),
            *final(self) == *old(self),
        decreases prefix,
    {
        let right = self.visit_expression(&prefix.right);
        match prefix.operator.token_type {
            TokenType::Plus => self.visit_positive(prefix, right),
            TokenType::Not => self.visit_not(prefix, right),
            _ => self.visit_negation(prefix, right),
        }
    }

    fn visit_positive(&mut self, prefix: &PrefixExpression, right: Option<Result<Type, TypeError>>) -> (r:
        Option<Result<Type, TypeError>>)
        ensures
            inferred_model(r) == prefix_rule(
                PrefixTable::Math,
                prefix.operator.token_type,
                inferred_model(right),
            ),
            *final(self) == *old(self),
    {
        self.prefix_helper(PrefixTable::Math, prefix, right)
    }

    fn visit_negation(&mut self, prefix: &PrefixExpression, right: Option<Result<Type, TypeError>>) -> (r:
        Option<Result<Type, TypeError>>)
        ensures
            inferred_model(r) == prefix_rule(
                PrefixTable::Math,
                prefix.operator.token_type,
                inferred_model(right),
            ),
            *final(self) == *old(self),
    {
        self.prefix_helper(PrefixTable::Math, prefix, right)
    }

    fn visit_not(&mut self, prefix: &PrefixExpression, right: Option<Result<Type, TypeError>>) -> (r:
        Option<Result<Type, TypeError>>)
        ensures
            inferred_model(r) == prefix_rule(
                PrefixTable::Not,
                prefix.operator.token_type,
                inferred_model(right),
            ),
            *final(self) == *old(self),
    {
        self.prefix_helper(PrefixTable::Not, prefix, right)
    }

    fn visit_infix(&mut self, infix: &InfixExpression) -> (r: Option<Result<Type, TypeError>>)
        requires
            crate::visitor::dispatches_infix(infix.operator.token_type),
            checkable_expression(infix.left.model()),
            checkable_expression(infix.right.model()),
        ensures
            inferred_model(r) == infix_rule(
                infix_table_of(infix.operator.token_type),
                infix.operator.token_type,
                infer(old(self).state(), infix.left.model()),
                infer(old(self).state(), infix.right.model()),
            ),
            *final(self) == *old(self),
        decreases infix,
    {
        let left = self.visit_expression(&infix.left);
        let right = self.visit_expression(&infix.right);
        let table = match infix.operator.token_type {
            TokenType::Equal | TokenType::NotEqual => InfixTable::Equality,
            TokenType::Greater | TokenType::GreaterEqual | TokenType::Lesser
            | TokenType::LesserEqual => InfixTable::Comparison,
            _ => InfixTable::Math,
        };
        self.infix_helper(table, infix, left, right)
    }

    fn visit_statement(&mut self, statement: &Statement) -> (r: Result<(), TypeErrors>)
        requires
            old(self).wf(),
            checkable_statement(statement.model()),
        ensures
            final(self).wf(),
            (final(self).state(), outcome_model(r)) == check_statement(
                old(self).state(),
                statement.model(),
            ),
        decreases statement,
    {
        match statement {
            Statement::Assign(stmt) => self.visit_assign(stmt),
            Statement::Expression(expr) => self.visit_expression_statement(expr),
            Statement::Block(stmt) => self.visit_block(stmt),
            Statement::If(stmt) => self.visit_if(stmt),
            Statement::While(stmt) => self.visit_while(stmt),
            _ => {
                proof {
                    assert(false);
                }
                Ok(())
            },
        }
    }

    fn visit_assign(&mut self, stmt: &AssignStatement) -> (r: Result<(), TypeErrors>)
        requires
            old(self).wf(),
            checkable_expression(stmt.value.model()),
        ensures
            final(self).wf(),
            (final(self).state(), outcome_model(r)) == check_statement(
                old(self).state(),
                Statement::Assign(Box::new(*stmt)).model(),
            ),
    {
        let inferred_type = match self.visit_expression(&stmt.value) {
            Some(r) => r,
            None => {
                self.broken_var.insert(stmt.variable.value.clone());
                return Ok(());
            },
        };
        match inferred_type {
            Ok(t) => {
                self.env_map.insert(stmt.variable.value.clone(), t);
                Ok(())
            },
            Err(err) => {
                self.broken_var.insert(stmt.variable.value.clone());
                Err(TypeErrors::SingleErr(err))
            },
        }
    }

    fn visit_expression_statement(&mut self, expr: &ExpressionStatement) -> (r: Result<(), TypeErrors>)
        requires
            old(self).wf(),
            checkable_expression(expr.expression.model()),
        ensures
            final(self).wf(),
            (final(self).state(), outcome_model(r)) == check_statement(
                old(self).state(),
                Statement::Expression(Box::new(*expr)).model(),
            ),
    {
        match self.visit_expression(&expr.expression) {
            Some(result) => match result {
                Ok(_) => Ok(()),
                Err(e) => Err(TypeErrors::SingleErr(e)),
            },
            None => Ok(()),
        }
    }

    /// Checks the statements of a block in order and gathers their errors.
    fn check_body(&mut self, body: &Vec<Statement>) -> (r: Result<(), TypeErrors>)
        requires
            old(self).wf(),
            checkable_block((BlockStatement { body: *body }).model()),
        ensures
            final(self).wf(),
            (final(self).state(), outcome_model(r)) == ({
                let (st, errs) = check_statements(
                    old(self).state(),
                    (BlockStatement { body: *body }).model(),
                    None,
                );
                (st, as_outcome(errs))
            }),
        decreases body,
    {
        let ghost b = (BlockStatement { body: *body }).model();
        let mut errs: Option<TypeErrors> = None;
        let mut i: usize = 0;
        while i < body.len()
            invariant
                i <= body.len(),
                b == (BlockStatement { body: *body }).model(),
                checkable_block(b),
                self.wf(),
                (self.state(), option_model(errs)) == check_statements(
                    old(self).state(),
                    b.take(i as int),
                    None,
                ),
            decreases body.len() - i,
        {
            proof {
                lemma_checkable_member(b, i as int);
                assert(b.take(i + 1).drop_last() =~= b.take(i as int));
            }
            let outcome = self.visit_statement(&body[i]);
            TypeErrors::merge_with(&mut errs, outcome);
            i = i + 1;
        }
        assert(b.take(body.len() as int) =~= b);
        get_result(errs)
    }

    fn visit_block(&mut self, stmt: &BlockStatement) -> (r: Result<(), TypeErrors>)
        requires
            old(self).wf(),
            checkable_block(stmt.model()),
        ensures
            final(self).wf(),
            (final(self).state(), outcome_model(r)) == check_statement(
                old(self).state(),
                Statement::Block(Box::new(*stmt)).model(),
            ),
        decreases stmt,
    {
        self.check_body(&stmt.body)
    }

    fn visit_if(&mut self, stmt: &IfStatement) -> (r: Result<(), TypeErrors>)
        requires
            old(self).wf(),
            checkable_expression(stmt.condition.model()),
            checkable_block(stmt.consequence.model()),
            checkable_block(stmt.alternitive.model()),
        ensures
            final(self).wf(),
            (final(self).state(), outcome_model(r)) == check_statement(
                old(self).state(),
                Statement::If(Box::new(*stmt)).model(),
            ),
        decreases stmt,
    {
        let mut errs: Option<TypeErrors> = None;
        let c = self.check_cond(&stmt.condition);
        TypeErrors::merge_with(&mut errs, c);
        let t = self.check_body(&stmt.consequence.body);
        TypeErrors::merge_with(&mut errs, t);
        let e = self.check_body(&stmt.alternitive.body);
        TypeErrors::merge_with(&mut errs, e);
        get_result(errs)
    }

    fn visit_while(&mut self, stmt: &WhileStatement) -> (r: Result<(), TypeErrors>)
        requires
            old(self).wf(),
            checkable_expression(stmt.condition.model()),
            checkable_block(stmt.body.model()),
        ensures
            final(self).wf(),
            (final(self).state(), outcome_model(r)) == check_statement(
                old(self).state(),
                Statement::While(Box::new(*stmt)).model(),
            ),
        decreases stmt,
    {
        let mut errs: Option<TypeErrors> = None;
        let c = self.check_cond(&stmt.condition);
        TypeErrors::merge_with(&mut errs, c);
        let b = self.check_body(&stmt.body.body);
        TypeErrors::merge_with(&mut errs, b);
        get_result(errs)
    }
}

/// Whether the checker handles the expression `e`.
pub fn supports_expression(e: &Expression) -> (r: bool)
    ensures
        r == checkable_expression(e.model()),
    decreases e,
{
    match e {
        Expression::Prefix(prefix) => {
            let tt = prefix.operator.token_type;
            let known = tt == TokenType::Plus || tt == TokenType::Not || tt == TokenType::Minus;
            known && supports_expression(&prefix.right)
        },
        Expression::Infix(infix) => {
            let known = match infix.operator.token_type {
                TokenType::Plus | TokenType::Minus | TokenType::Divide | TokenType::Multiply
                | TokenType::Equal | TokenType::NotEqual | TokenType::Greater
                | TokenType::GreaterEqual | TokenType::Lesser | TokenType::LesserEqual => true,
                _ => false,
            };
            known && supports_expression(&infix.left) && supports_expression(&infix.right)
        },
        Expression::FunctionCall(_) => false,
        _ => true,
    }
}

/// Whether the checker handles the statement `s`.
pub fn supports_statement(s: &Statement) -> (r: bool)
    ensures
        r == checkable_statement(s.model()),
    decreases s,
{
    match s {
        Statement::Assign(a) => supports_expression(&a.value),
        Statement::Expression(e) => supports_expression(&e.expression),
        Statement::Block(b) => supports_block(b),
        Statement::If(i) => supports_expression(&i.condition) && supports_block(&i.consequence)
            && supports_block(&i.alternitive),
        Statement::While(w) => supports_expression(&w.condition) && supports_block(&w.body),
        _ => false,
    }
}

/// Whether the checker handles all the statements of `b`.
pub fn supports_block(b: &BlockStatement) -> (r: bool)
    ensures
        r == checkable_block(b.model()),
    decreases b,
{
    let ghost m = b.model();
    let mut ok = true;
    let mut i: usize = 0;
    assert(m.take(0) =~= Seq::<SpecStatement>::empty());
    while i < b.body.len()
        invariant
            i <= b.body.len(),
            m == b.model(),
            ok == checkable_block(m.take(i as int)),
        decreases b.body.len() - i,
    {
        assert(m.take(i + 1).drop_last() =~= m.take(i as int));
        let here = supports_statement(&b.body[i]);
        ok = ok && here;
        i = i + 1;
    }
    assert(m.take(b.body.len() as int) =~= m);
    ok
}

/// A member of checkable statements is checkable.
pub proof fn lemma_checkable_member(b: Seq<SpecStatement>, k: int)
    requires
        0 <= k < b.len(),
        checkable_block(b),
    ensures
        checkable_statement(b[k]),
    decreases b.len(),
{
    if k < b.len() - 1 {
        lemma_checkable_member(b.drop_last(), k);
    }
}

} // verus!
