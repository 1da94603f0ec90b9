//! A visitor over the syntax tree.
use vstd::prelude::*;
use crate::ast::{
    AssignStatement, BlockStatement, BooleanLiteral, Expression, ExpressionStatement,
    ForLoopStatement, FunctionCallExpression, Identifier, IfStatement, InfixExpression,
    IntegerLiteral, PrefixExpression, ProcedureStatement, ProgramRoot, ReturnStatement, Statement,
    StringLiteral, WhileStatement,
};
use crate::token::TokenType;

verus! {

/// The prefix operators that the provided dispatch knows.
pub open spec fn dispatches_prefix(tt: TokenType) -> bool {
    tt == TokenType::Plus || tt == TokenType::Not || tt == TokenType::Minus
}

/// The infix operators that the provided dispatch knows.
pub open spec fn dispatches_infix(tt: TokenType) -> bool {
    match tt {
        TokenType::Plus | TokenType::Minus | TokenType::Divide | TokenType::Multiply
        | TokenType::Equal | TokenType::NotEqual | TokenType::Greater | TokenType::GreaterEqual
        | TokenType::Lesser | TokenType::LesserEqual => true,
        _ => false,
    }
}

/// A walk over the syntax tree: `S` is what a statement gives, `E` what an
/// expression gives.
///
/// A visitor says which trees it can walk (`accepts_*`); each method asks
/// that of the node it is given.
pub trait Visitor<S, E>: Sized {
    /// Whether `r`, with this visitor becoming `after`, is what this visitor's
    /// method for the prefix operator `op` gives for `prefix`, whose operand
    /// gave `right`.
    spec fn prefix_gives(&self, op: TokenType, prefix: PrefixExpression, right: E, after: Self, r: E) -> bool;

    /// Whether `r`, with this visitor becoming `after`, is what this visitor's
    /// method for the infix operator `op` gives for `infix`, whose operands
    /// gave `left` and `right`.
    spec fn infix_gives(
        &self,
        op: TokenType,
        infix: InfixExpression,
        left: E,
        right: E,
        after: Self,
        r: E,
    ) -> bool;

    /// Whether this visitor, in its current state, can walk the program `root`.
    spec fn accepts_program(&self, root: ProgramRoot) -> bool;

    /// Whether this visitor, in its current state, can walk the expression `e`.
    spec fn accepts_expression(&self, e: Expression) -> bool;

    /// Whether this visitor, in its current state, can walk the statement `s`.
    spec fn accepts_statement(&self, s: Statement) -> bool;

    fn visit_program_root(&mut self, root: &ProgramRoot)
        requires
            old(self).accepts_program(*root),
    ;

    fn visit_expression(&mut self, expression: &Expression) -> E
        requires
            old(self).accepts_expression(*expression),
    ;

    fn visit_identifier(&mut self, ident: &Identifier) -> E;

    fn visit_integer(&mut self, literal: &IntegerLiteral) -> E;

    fn visit_boolean(&mut self, literal: &BooleanLiteral) -> E;

    fn visit_string(&mut self, literal: &StringLiteral) -> E;

    fn visit_prefix(&mut self, prefix: &PrefixExpression) -> E
        requires
            old(self).accepts_expression(Expression::Prefix(Box::new(*prefix))),
    ;

    /// Dispatches on the operator of `prefix`, whose operand gave `right`.
    fn visit_prefix_default(&mut self, prefix: &PrefixExpression, right: E) -> (r: E)
        requires
            dispatches_prefix(prefix.operator.token_type),
        ensures
            old(self).prefix_gives(prefix.operator.token_type, *prefix, right, *final(self), r),
    {
        match prefix.operator.token_type {
            TokenType::Plus => self.visit_positive(prefix, right),
            TokenType::Not => self.visit_not(prefix, right),
            _ => self.visit_negation(prefix, right),
        }
    }

    fn visit_infix(&mut self, infix: &InfixExpression) -> E
        requires
            old(self).accepts_expression(Expression::Infix(Box::new(*infix))),
    ;

    /// Dispatches on the operator of `infix`, whose operands gave `left` and `right`.
    fn visit_infix_default(&mut self, infix: &InfixExpression, left: E, right: E) -> (r: E)
        requires
            dispatches_infix(infix.operator.token_type),
        ensures
            old(self).infix_gives(infix.operator.token_type, *infix, left, right, *final(self), r),
    {
        match infix.operator.token_type {
            TokenType::Plus => self.visit_addition(infix, left, right),
            TokenType::Minus => self.visit_subtraction(infix, left, right),
            TokenType::Divide => self.visit_division(infix, left, right),
            TokenType::Multiply => self.visit_multiplication(infix, left, right),
            TokenType::Equal => self.visit_equal(infix, left, right),
            TokenType::NotEqual => self.visit_not_equal(infix, left, right),
            TokenType::Greater => self.visit_greater(infix, left, right),
            TokenType::GreaterEqual => self.visit_greater_equal(infix, left, right),
            TokenType::Lesser => self.visit_lesser(infix, left, right),
            _ => self.visit_lesser_equal(infix, left, right),
        }
    }

    fn visit_function_call(&mut self, call: &FunctionCallExpression) -> E
        requires
            old(self).accepts_expression(Expression::FunctionCall(Box::new(*call))),
    ;

    fn visit_addition(&mut self, infix: &InfixExpression, left: E, right: E) -> (r: E)
        ensures
            old(self).infix_gives(TokenType::Plus, *infix, left, right, *final(self), r),
    ;

    fn visit_subtraction(&mut self, infix: &InfixExpression, left: E, right: E) -> (r: E)
        ensures
            old(self).infix_gives(TokenType::Minus, *infix, left, right, *final(self), r),
    ;

    fn visit_division(&mut self, infix: &InfixExpression, left: E, right: E) -> (r: E)
        ensures
            old(self).infix_gives(TokenType::Divide, *infix, left, right, *final(self), r),
    ;

    fn visit_multiplication(&mut self, infix: &InfixExpression, left: E, right: E) -> (r: E)
        ensures
            old(self).infix_gives(TokenType::Multiply, *infix, left, right, *final(self), r),
    ;

    fn visit_equal(&mut self, infix: &InfixExpression, left: E, right: E) -> (r: E)
        ensures
            old(self).infix_gives(TokenType::Equal, *infix, left, right, *final(self), r),
    ;

    fn visit_not_equal(&mut self, infix: &InfixExpression, left: E, right: E) -> (r: E)
        ensures
            old(self).infix_gives(TokenType::NotEqual, *infix, left, right, *final(self), r),
    ;

    fn visit_greater(&mut self, infix: &InfixExpression, left: E, right: E) -> (r: E)
        ensures
            old(self).infix_gives(TokenType::Greater, *infix, left, right, *final(self), r),
    ;

    fn visit_greater_equal(&mut self, infix: &InfixExpression, left: E, right: E) -> (r: E)
        ensures
            old(self).infix_gives(TokenType::GreaterEqual, *infix, left, right, *final(self), r),
    ;

    fn visit_lesser(&mut self, infix: &InfixExpression, left: E, right: E) -> (r: E)
        ensures
            old(self).infix_gives(TokenType::Lesser, *infix, left, right, *final(self), r),
    ;

    fn visit_lesser_equal(&mut self, infix: &InfixExpression, left: E, right: E) -> (r: E)
        ensures
            old(self).infix_gives(TokenType::LesserEqual, *infix, left, right, *final(self), r),
    ;

    fn visit_positive(&mut self, prefix: &PrefixExpression, right: E) -> (r: E)
        ensures
            old(self).prefix_gives(TokenType::Plus, *prefix, right, *final(self), r),
    ;

    fn visit_negation(&mut self, prefix: &PrefixExpression, right: E) -> (r: E)
        ensures
            old(self).prefix_gives(TokenType::Minus, *prefix, right, *final(self), r),
    ;

    fn visit_not(&mut self, prefix: &PrefixExpression, right: E) -> (r: E)
        ensures
            old(self).prefix_gives(TokenType::Not, *prefix, right, *final(self), r),
    ;

    fn visit_statement(&mut self, statement: &Statement) -> S
        requires
            old(self).accepts_statement(*statement),
    ;

    fn visit_assign(&mut self, stmt: &AssignStatement) -> S
        requires
            old(self).accepts_statement(Statement::Assign(Box::new(*stmt))),
    ;

    fn visit_return(&mut self, stmt: &ReturnStatement) -> S
        requires
            old(self).accepts_statement(Statement::Return(Box::new(*stmt))),
    ;

    fn visit_expression_statement(&mut self, expr: &ExpressionStatement) -> S
        requires
            old(self).accepts_statement(Statement::Expression(Box::new(*expr))),
    ;

    fn visit_block(&mut self, stmt: &BlockStatement) -> S
        requires
            old(self).accepts_statement(Statement::Block(Box::new(*stmt))),
    ;

    fn visit_if(&mut self, stmt: &IfStatement) -> S
        requires
            old(self).accepts_statement(Statement::If(Box::new(*stmt))),
    ;

    fn visit_procedure(&mut self, stmt: &ProcedureStatement) -> S
        requires
            old(self).accepts_statement(Statement::Procedure(Box::new(*stmt))),
    ;

    fn visit_while(&mut self, stmt: &WhileStatement) -> S
        requires
            old(self).accepts_statement(Statement::While(Box::new(*stmt))),
    ;

    fn visit_for_loop(&mut self, stmt: &ForLoopStatement) -> S
        requires
            old(self).accepts_statement(Statement::ForLoop(Box::new(*stmt))),
    ;
}

} // verus!
