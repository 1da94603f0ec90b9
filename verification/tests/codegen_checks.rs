use pseudocode::ast::ProgramRoot;
use pseudocode::compiler::Compiler;
use pseudocode::ir::{
    IrBlock, IrCmp, IrData, IrDataItem, IrFunction, IrInstr, IrModule, IrStatement, IrType,
    IrValue,
};
use pseudocode::lmc::{Instruction, Program};
use pseudocode::optimiser::Optimiser;
use pseudocode::parser::Parser;
use pseudocode::pipeline::{transpile_program, transpile_source, Transpiled, TranspiledSource};
use pseudocode::error::ParserError;
use pseudocode::type_checker::TypeErrors;
use pseudocode::qbe_compiler::Compiler as QbeCompiler;

fn parse(source: &str) -> ProgramRoot {
    let mut parser = Parser::from(source);
    match parser.parse_checked() {
        Ok(program) => program,
        Err(e) => panic!("failed to parse {:?}: {:?}", source, e),
    }
}

fn temp(name: &str) -> IrValue {
    IrValue::Temporary(name.to_string())
}

fn assign(to: &str, instr: IrInstr) -> IrStatement {
    IrStatement::Assign(temp(to), IrType::Word, instr)
}

fn block(label: &str, items: Vec<IrStatement>) -> IrBlock {
    IrBlock { label: label.to_string(), items }
}

fn ret() -> IrStatement {
    IrStatement::Volatile(IrInstr::Ret(Some(IrValue::Const(0))))
}

fn jmp(label: &str) -> IrStatement {
    IrStatement::Volatile(IrInstr::Jmp(label.to_string()))
}

fn print_of(v: IrValue) -> IrStatement {
    IrStatement::Volatile(IrInstr::Call(
        "printf".to_string(),
        vec![(IrType::Long, IrValue::Global("fmt".to_string())), (IrType::Word, v)],
        None,
    ))
}

fn main_module(blocks: Vec<IrBlock>) -> IrModule {
    IrModule {
        functions: vec![IrFunction {
            exported: true,
            name: "main".to_string(),
            arguments: vec![],
            return_ty: Some(IrType::Word),
            blocks,
        }],
        data: vec![IrData {
            exported: false,
            name: "fmt".to_string(),
            align: None,
            items: vec![(IrType::Byte, IrDataItem::Str("%d\n".to_string()))],
        }],
    }
}

#[test]
fn lmc_compiles_assignment_and_print() {
    let program = Compiler::compile_checked(parse("x = 5\nprint(x)\n")).expect("compiles");
    assert_eq!(
        program.get_program(),
        "           LDA literal_5\n           STA variable_x\n           LDA variable_x\n           OUT\n           HLT\n literal_5 DAT 5\nvariable_x DAT 0\n"
    );
}

#[test]
fn lmc_optimiser_drops_load_after_store() {
    let program = Compiler::compile_checked(parse("x = 5\nprint(x)\n")).expect("compiles");
    let before = program.0.len();
    let optimised = Optimiser::new(program).optimise_checked().expect("optimises");
    assert_eq!(optimised.0.len(), before - 1);
    assert_eq!(
        optimised.get_program(),
        "           LDA literal_5\n           STA variable_x\n           OUT\n           HLT\n literal_5 DAT 5\nvariable_x DAT 0\n"
    );
}

#[test]
fn lmc_optimiser_merges_branch_to_next_line() {
    let mut program = Program::new();
    program.push(None, Instruction::Hlt);
    program.push(None, Instruction::Brz("a".to_string()));
    program.push(Some("a".to_string()), Instruction::Bra("b".to_string()));
    program.push(Some("b".to_string()), Instruction::Out);
    program.push(None, Instruction::Hlt);
    let optimised = Optimiser::new(program).optimise_checked().expect("optimises");
    assert_eq!(
        optimised.get_program(),
        "           HLT\n           BRZ merged_a_b\nmerged_a_b OUT\n           HLT\n"
    );
}

#[test]
fn lmc_optimiser_stops_where_it_cannot_go_on() {
    assert!(Optimiser::new(Program::new()).optimise_checked().is_none());
    let mut program = Program::new();
    program.push(None, Instruction::Sta("x".to_string()));
    program.push(None, Instruction::Lda("x".to_string()));
    program.push(None, Instruction::Hlt);
    assert!(Optimiser::new(program).optimise_checked().is_none());
    let mut program = Program::new();
    program.push(Some("a".to_string()), Instruction::Bra("b".to_string()));
    program.push(None, Instruction::Hlt);
    assert!(Optimiser::new(program).optimise_checked().is_none());
}

#[test]
fn lmc_compiler_stops_on_what_it_cannot_compile() {
    assert!(Compiler::compile_checked(parse("print(y)\n")).is_none());
    assert!(Compiler::compile_checked(parse("x = \"text\"\n")).is_none());
    assert!(Compiler::compile_checked(parse("x = -1\n")).is_none());
}

#[test]
fn lmc_compiles_comparison_with_labels() {
    let program = Compiler::compile_checked(parse("x = 1 > 2\n")).expect("compiles");
    let text = program.get_program();
    assert!(text.contains("SUB temp_0"));
    assert!(text.contains("BRZ label_greater_false_0"));
    assert!(text.contains("BRP label_greater_true_0"));
    assert!(text.contains("label_greater_continue_0 STA variable_x"));
}

#[test]
fn lmc_program_merge_concatenates() {
    let mut a = Program::new();
    a.push(None, Instruction::Inp);
    let mut b = Program::new();
    b.push_dat(Some("seven".to_string()), 7);
    let merged = a.merge(b);
    assert_eq!(merged.get_program(), "      INP\nseven DAT 7\n");
}

#[test]
fn qbe_compiles_arithmetic_and_print() {
    let module = QbeCompiler::compile_checked(parse("x = 1 + 2\nprint(x)\n")).expect("compiles");
    let expected = main_module(vec![block(
        "start",
        vec![
            assign("t0", IrInstr::Add(IrValue::Const(1), IrValue::Const(2))),
            assign("x", IrInstr::Copy(temp("t0"))),
            print_of(temp("x")),
            ret(),
        ],
    )]);
    assert_eq!(module, expected);
}

#[test]
fn qbe_compiles_if_into_blocks() {
    let module = QbeCompiler::compile_checked(parse("x = 2\nif x > 1 then\ny = 2\nendif\n"))
        .expect("compiles");
    let expected = main_module(vec![
        block(
            "start",
            vec![
                assign("x", IrInstr::Copy(IrValue::Const(2))),
                assign("t0", IrInstr::Cmp(IrType::Word, IrCmp::Sgt, temp("x"), IrValue::Const(1))),
                IrStatement::Volatile(IrInstr::Jnz(temp("t0"), "b0".to_string(), "b1".to_string())),
            ],
        ),
        block("b0", vec![assign("y", IrInstr::Copy(IrValue::Const(2))), jmp("b2")]),
        block("b1", vec![jmp("b2")]),
        block("b2", vec![ret()]),
    ]);
    assert_eq!(module, expected);
}

#[test]
fn qbe_compiles_while_into_blocks() {
    let module = QbeCompiler::compile_checked(parse("i = 0\nwhile i < 3\ni = i + 1\nendwhile\n"))
        .expect("compiles");
    let expected = main_module(vec![
        block("start", vec![assign("i", IrInstr::Copy(IrValue::Const(0)))]),
        block(
            "b0",
            vec![
                assign("t0", IrInstr::Cmp(IrType::Word, IrCmp::Slt, temp("i"), IrValue::Const(3))),
                IrStatement::Volatile(IrInstr::Jnz(temp("t0"), "b1".to_string(), "b2".to_string())),
            ],
        ),
        block(
            "b1",
            vec![
                assign("t1", IrInstr::Add(temp("i"), IrValue::Const(1))),
                assign("i", IrInstr::Copy(temp("t1"))),
                jmp("b0"),
            ],
        ),
        block("b2", vec![ret()]),
    ]);
    assert_eq!(module, expected);
}

#[test]
fn qbe_compiles_for_into_blocks() {
    let module = QbeCompiler::compile_checked(parse("for i = 0 to 3\nprint(i)\nnext i\n"))
        .expect("compiles");
    let expected = main_module(vec![
        block("start", vec![assign("i", IrInstr::Copy(IrValue::Const(0)))]),
        block(
            "b0",
            vec![
                assign("t1", IrInstr::Cmp(IrType::Word, IrCmp::Sge, temp("i"), IrValue::Const(0))),
                assign("t2", IrInstr::Cmp(IrType::Word, IrCmp::Slt, temp("i"), IrValue::Const(3))),
                assign("t0", IrInstr::Cmp(IrType::Word, IrCmp::Eq, temp("t1"), temp("t2"))),
                IrStatement::Volatile(IrInstr::Jnz(temp("t0"), "b1".to_string(), "b2".to_string())),
            ],
        ),
        block(
            "b1",
            vec![
                print_of(temp("i")),
                assign("i", IrInstr::Add(temp("i"), IrValue::Const(1))),
                jmp("b0"),
            ],
        ),
        block("b2", vec![ret()]),
    ]);
    assert_eq!(module, expected);
}

#[test]
fn qbe_compiles_prefix_operators() {
    let module = QbeCompiler::compile_checked(parse("a = -5\nb = NOT a\n")).expect("compiles");
    let expected = main_module(vec![block(
        "start",
        vec![
            assign("t0", IrInstr::Sub(IrValue::Const(0), IrValue::Const(5))),
            assign("a", IrInstr::Copy(temp("t0"))),
            assign("t1", IrInstr::Cmp(IrType::Word, IrCmp::Ne, temp("a"), IrValue::Const(1))),
            assign("b", IrInstr::Copy(temp("t1"))),
            ret(),
        ],
    )]);
    assert_eq!(module, expected);
}

#[test]
fn qbe_compiler_stops_on_what_it_cannot_compile() {
    assert!(QbeCompiler::compile_checked(parse("x = true\n")).is_none());
    assert!(QbeCompiler::compile_checked(parse("print(1,2)\n")).is_none());
    assert!(QbeCompiler::compile_checked(parse("foo(1)\n")).is_none());
    assert!(QbeCompiler::compile_checked(parse("x = 1 AND 2\n")).is_none());
}

#[test]
fn transpile_gives_assembly_errors_or_refusal() {
    match transpile_program(parse("x = 1\ny = x + 2\n")) {
        Transpiled::Assembly(text) => assert_eq!(
            text,
            "           LDA literal_1\n           STA variable_x\n           LDA literal_2\n           STA temp_0\n           LDA variable_x\n           ADD temp_0\n           STA variable_y\n           HLT\n literal_1 DAT 1\nvariable_x DAT 0\n literal_2 DAT 2\n    temp_0 DAT 0\nvariable_y DAT 0\n"
        ),
        other => panic!("expected assembly, got {:?}", other),
    }
    assert!(matches!(
        transpile_program(parse("x = 1 + true\n")),
        Transpiled::TypeErrors(TypeErrors::SingleErr(_))
    ));
    assert!(matches!(transpile_program(parse("print(1)\n")), Transpiled::Unsupported));
}

#[test]
fn transpile_source_parses_then_transpiles() {
    assert!(matches!(
        transpile_source("x = 1\n"),
        TranspiledSource::Program(Transpiled::Assembly(_))
    ));
    assert!(matches!(
        transpile_source("x = 1 + true\n"),
        TranspiledSource::Program(Transpiled::TypeErrors(_))
    ));
    assert!(matches!(
        transpile_source(")\n"),
        TranspiledSource::ParseError(ParserError::FailedToParseStatementGot(_))
    ));
    assert!(matches!(
        transpile_source("x = 99999999999999999999\n"),
        TranspiledSource::InvalidNumber(_)
    ));
}
