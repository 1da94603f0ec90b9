//! The whole way from a parsed program to Little Man Computer assembly:
//! type-check it, compile it, optimise it, and write it out.
use vstd::prelude::*;
use crate::ast::{ProgramRoot, SpecStatement};
use crate::cursor::describes;
use crate::error::{ParseFail, ParserError, SpecFail};
use crate::lexer::Lexer;
use crate::parser::{spec_program, Parser};
use crate::token::Token;
use crate::compiler::{compile_program, Compiler};
use crate::lmc::{longest_label, program_text};
use crate::optimiser::{optimise_from, Optimiser};
use crate::type_checker::{
    check_statements, checkable_block, supports_block, SpecChecker, TypeChecker, TypeErrors,
};

verus! {

/// What transpiling a program gives.
#[derive(Debug)]
pub enum Transpiled {
    /// The optimised assembly text.
    Assembly(String),
    /// The type errors of the program.
    TypeErrors(TypeErrors),
    /// A construct that the type checker, the compiler or the optimiser does
    /// not handle, or a label too long to lay out.
    Unsupported,
}

/// The state of a type checker that has seen nothing.
pub open spec fn fresh_checker() -> SpecChecker {
    SpecChecker { env: Map::empty(), broken: Set::empty() }
}

/// What checking the program `b` reports: `None` when it is well typed.
pub open spec fn program_errors(b: Seq<SpecStatement>) -> Option<crate::type_checker::SpecTypeErrors> {
    check_statements(fresh_checker(), b, None).1
}

/// `r` is what transpiling the program whose statements are `m` gives:
/// assembly when the checker handles it, it is well typed, and it compiles,
/// optimises and lays out; its type errors when it is not well typed;
/// `Unsupported` otherwise.
pub open spec fn transpiles_to(r: Transpiled, m: Seq<SpecStatement>) -> bool {
    match r {
        Transpiled::Assembly(s) => {
            &&& checkable_block(m)
            &&& program_errors(m) is None
            &&& compile_program(m) matches Some(p) && optimise_from(p, 0) matches Some(q)
                && longest_label(q) < usize::MAX && s@ == program_text(q, longest_label(q))
        },
        Transpiled::TypeErrors(e) => checkable_block(m) && program_errors(m) == Some(e.model()),
        Transpiled::Unsupported => !checkable_block(m) || (program_errors(m) is None && (
        compile_program(m) matches Some(p) ==> (optimise_from(p, 0) matches Some(q) ==> longest_label(
            q,
        ) >= usize::MAX))),
    }
}

/// Type-checks `ast`; when it is well typed, compiles, optimises and writes
/// it out as assembly text.
pub fn transpile_program(ast: ProgramRoot) -> (r: Transpiled)
    ensures
        transpiles_to(r, ast.model()),
{
    if !supports_block(&ast.0) {
        return Transpiled::Unsupported;
    }
    let mut checker = TypeChecker::new();
    if let Some(errors) = checker.check(&ast) {
        return Transpiled::TypeErrors(errors);
    }
    let ghost m = ast.model();
    let program = match Compiler::compile_checked(ast) {
        Some(p) => p,
        None => {
            return Transpiled::Unsupported;
        },
    };
    let optimised = match Optimiser::new(program).optimise_checked() {
        Some(p) => p,
        None => {
            return Transpiled::Unsupported;
        },
    };
    if optimised.longest_label_width() == usize::MAX {
        return Transpiled::Unsupported;
    }
    Transpiled::Assembly(optimised.get_program())
}

/// What transpiling a source text gives.
#[derive(Debug)]
pub enum TranspiledSource {
    /// The text does not parse.
    ParseError(ParserError),
    /// The text holds a number whose digits do not make an `i64`.
    InvalidNumber(Token),
    /// The text parses; what its program gives.
    Program(Transpiled),
}

/// `l` is a lexer at the start of the text `s`.
pub open spec fn lexer_at_start(l: Lexer, s: Seq<char>) -> bool {
    &&& l.wf()
    &&& describes(l.cursor, s)
    &&& l.cursor.line == 0
    &&& l.cursor.pos == 0
    &&& !l.line_has_token
}

/// Parses `src`; when it parses, transpiles its program.
pub fn transpile_source(src: &str) -> (r: TranspiledSource)
    ensures
        exists|l: Lexer|
            #[trigger] lexer_at_start(l, src@) && match r {
                TranspiledSource::ParseError(e) => spec_program(l).1 == Err::<Seq<SpecStatement>, SpecFail>(
                    SpecFail::Error(e.model()),
                ),
                TranspiledSource::InvalidNumber(t) => spec_program(l).1 == Err::<
                    Seq<SpecStatement>,
                    SpecFail,
                >(SpecFail::InvalidNumber(t@)),
                TranspiledSource::Program(t) => spec_program(l).1 matches Ok(b) && transpiles_to(t, b),
            },
{
    let mut parser = Parser::from(src);
    let ghost l = parser.lexer();
    assert(lexer_at_start(l, src@));
    match parser.parse_checked() {
        Ok(ast) => TranspiledSource::Program(transpile_program(ast)),
        Err(ParseFail::Error(e)) => TranspiledSource::ParseError(e),
        Err(ParseFail::InvalidNumber(t)) => TranspiledSource::InvalidNumber(t),
    }
}

} // verus!
