use pseudocode::ast::ProgramRoot;
use pseudocode::parser::Parser;
use pseudocode::position::TokenPosition;
use pseudocode::pretty_print::{can_print, PrettyPrint};
use pseudocode::token::TokenType;
use pseudocode::type_checker::{supports_block, Type, TypeChecker, TypeError, TypeErrors};

fn parse(source: &str) -> ProgramRoot {
    let mut parser = Parser::from(source);
    match parser.parse_checked() {
        Ok(program) => program,
        Err(e) => panic!("failed to parse {:?}: {:?}", source, e),
    }
}

fn check(source: &str) -> Option<TypeErrors> {
    let program = parse(source);
    assert!(supports_block(&program.0));
    TypeChecker::new().check(&program)
}

fn no_range() -> TokenPosition {
    TokenPosition::temp_default()
}

#[test]
fn pretty_print_puts_operations_in_parentheses() {
    let program = parse("x = 1 + 2 * 3\nprint(x)\n");
    assert!(can_print(&program));
    assert_eq!(program.pretty_print(), "x = (1 + (2 * 3))\nprint(x)\n");
}

#[test]
fn pretty_print_prefix_and_literals() {
    let program = parse("a = NOT true\nb = -x\nc = \"hi\"\nd = f(1,x)\n");
    assert_eq!(
        program.pretty_print(),
        "a = (NOT true)\nb = (-x)\nc = \"hi\"\nd = f(1,x)\n"
    );
}

#[test]
fn pretty_print_indents_if_blocks() {
    let program = parse("if x > 1 then\ny = 2\nelse\ny = 3\nendif\n");
    assert_eq!(
        program.pretty_print(),
        "if (x > 1) then\n    y = 2\nelse\n    y = 3\nendif\n"
    );
}

#[test]
fn pretty_print_if_without_else() {
    let program = parse("if x then\nif y then\nz = 1\nendif\nendif\n");
    assert_eq!(
        program.pretty_print(),
        "if x then\n    if y then\n        z = 1\n    endif\nendif\n"
    );
}

#[test]
fn pretty_print_while_keeps_its_layout() {
    let program = parse("while x < 3\nx = x + 1\nendwhile\n");
    assert_eq!(program.pretty_print(), "while (x < 3)    x = (x + 1)\nendwhile");
}

#[test]
fn pretty_print_refuses_operator_without_rule() {
    let program = parse("x = 5 MOD 2\n");
    assert!(!can_print(&program));
    let program = parse("x = a AND b\n");
    assert!(!can_print(&program));
}

#[test]
fn type_check_accepts_well_typed_program() {
    let errors = check("x = 1\ny = x + 2\nz = y > 1\nif z then\nw = \"a\" == \"b\"\nendif\nwhile w\nw = false\nendwhile\n");
    assert_eq!(errors, None);
}

#[test]
fn type_check_reports_infix_mismatch() {
    assert_eq!(
        check("x = 1 + true\n"),
        Some(TypeErrors::SingleErr(TypeError::UnapplicableTypeForInfix {
            operator: TokenType::Plus,
            left: Type::Int,
            right: Type::Boolean,
            range: no_range(),
        }))
    );
}

#[test]
fn type_check_reports_prefix_mismatch() {
    assert_eq!(
        check("x = NOT 1\n"),
        Some(TypeErrors::SingleErr(TypeError::UnapplicableTypeForPrefix {
            operator: TokenType::Not,
            right: Type::Int,
            range: no_range(),
        }))
    );
}

#[test]
fn type_check_reports_undeclared_variable() {
    assert_eq!(
        check("y = z\n"),
        Some(TypeErrors::SingleErr(TypeError::UndeclaredVariable {
            variable: "z".to_string(),
            range: no_range(),
        }))
    );
}

#[test]
fn type_check_reports_non_boolean_condition() {
    assert_eq!(
        check("if 1 then\nendif\n"),
        Some(TypeErrors::SingleErr(TypeError::ExpectedBooleanForCondition {
            got: Type::Int,
            range: no_range(),
        }))
    );
}

#[test]
fn type_check_gathers_errors_in_order() {
    assert_eq!(
        check("a = z\nb = w\n"),
        Some(TypeErrors::MultipleErrs(vec![
            TypeError::UndeclaredVariable { variable: "z".to_string(), range: no_range() },
            TypeError::UndeclaredVariable { variable: "w".to_string(), range: no_range() },
        ]))
    );
}

#[test]
fn type_check_is_silent_about_broken_variables() {
    assert_eq!(
        check("a = z\nb = a + 1\n"),
        Some(TypeErrors::SingleErr(TypeError::UndeclaredVariable {
            variable: "z".to_string(),
            range: no_range(),
        }))
    );
}

#[test]
fn type_checker_does_not_handle_calls() {
    let program = parse("print(1)\n");
    assert!(!supports_block(&program.0));
}
