use std::collections::HashMap;

use pseudocode::compiler::Compiler;
use pseudocode::lexer::Lexer;
use pseudocode::lmc::{Instruction, Program};
use pseudocode::optimiser::Optimiser;
use pseudocode::parser::Parser;
use pseudocode::token::TokenType;

/// Runs a program on a Little Man Computer whose data words are found by
/// their labels, as the run model of the library describes it; gives what it
/// output, or `None` when it does not stop within `limit` steps.
fn run_lmc(program: &Program, input: &[i64], limit: usize) -> Option<Vec<i64>> {
    let lines = &program.0;
    let mut mem: HashMap<String, i64> = HashMap::new();
    for line in lines.iter() {
        if let (Some(label), Instruction::Dat { value, .. }) = (&line.label, &line.inst) {
            mem.insert(label.clone(), *value as i64);
        }
    }
    let target = |l: &str| {
        lines
            .iter()
            .position(|x| x.label.as_deref() == Some(l))
            .unwrap_or(lines.len())
    };
    let mut pc = 0usize;
    let mut acc: i64 = 0;
    let mut input = input.iter();
    let mut output = Vec::new();
    for _ in 0..limit {
        if pc >= lines.len() {
            return Some(output);
        }
        let next = pc + 1;
        match &lines[pc].inst {
            Instruction::Add(x) => {
                acc += mem.get(x).copied().unwrap_or(0);
                pc = next;
            }
            Instruction::Sub(x) => {
                acc -= mem.get(x).copied().unwrap_or(0);
                pc = next;
            }
            Instruction::Sta(x) => {
                mem.insert(x.clone(), acc);
                pc = next;
            }
            Instruction::Lda(x) => {
                acc = mem.get(x).copied().unwrap_or(0);
                pc = next;
            }
            Instruction::Bra(l) => pc = target(l),
            Instruction::Brz(l) => pc = if acc == 0 { target(l) } else { next },
            Instruction::Brp(l) => pc = if acc >= 0 { target(l) } else { next },
            Instruction::Inp => match input.next() {
                Some(v) => {
                    acc = *v;
                    pc = next;
                }
                None => return Some(output),
            },
            Instruction::Out => {
                output.push(acc);
                pc = next;
            }
            Instruction::Hlt | Instruction::Dat { .. } => return Some(output),
        }
    }
    None
}

fn compile(source: &str) -> Program {
    let mut parser = Parser::from(source);
    let root = match parser.parse_checked() {
        Ok(root) => root,
        Err(e) => panic!("failed to parse {:?}: {:?}", source, e),
    };
    Compiler::compile_checked(root).expect("compiles")
}

fn optimise(source: &str) -> Program {
    Optimiser::new(compile(source)).optimise_checked().expect("optimises")
}

#[test]
fn multiplication_leaves_the_product() {
    assert_eq!(run_lmc(&compile("x = 3 * 4\nprint(x)\n"), &[], 1000), Some(vec![12]));
    assert_eq!(run_lmc(&compile("x = 0 * 7\nprint(x)\n"), &[], 1000), Some(vec![0]));
    assert_eq!(run_lmc(&compile("x = 7 * 0\nprint(x)\n"), &[], 1000), Some(vec![0]));
    assert_eq!(run_lmc(&compile("x = 9 * 11\nprint(x)\n"), &[], 1000), Some(vec![99]));
}

#[test]
fn optimising_keeps_the_output() {
    let sources = [
        "x = 5\nprint(x)\n",
        "x = 3 * 4\nprint(x)\ny = x * 2\nprint(y)\n",
        "i = 0\nwhile i < 3\nprint(i * 5)\ni = i + 1\nendwhile\n",
        "x = 2\nif x > 1 then\nprint(x)\nendif\nprint(x + 1)\n",
    ];
    for source in sources.iter() {
        let plain = run_lmc(&compile(source), &[], 10000);
        assert!(plain.is_some());
        assert_eq!(run_lmc(&optimise(source), &[], 10000), plain, "{:?}", source);
    }
}

#[test]
fn token_literals_are_the_text_between_their_positions() {
    let source = "s = \"é\" + t\nif x <= 10 then\ny = y * 2 // note\nendif\nendprocedure\n";
    let lines: Vec<&str> = source.split('\n').collect();
    let mut lexer = Lexer::from(source);
    let mut seen = 0;
    for _ in 0..100 {
        let token = lexer.bump().expect("lexes");
        match token.token_type {
            TokenType::Eof => break,
            TokenType::String | TokenType::Newline => {}
            _ => {
                let from = token.pos.from;
                let to = token.pos.to;
                assert_eq!(from.line, to.line);
                let line = lines[from.line];
                let last = line[to.index..].chars().next().expect("a character at the end");
                assert_eq!(token.literal, &line[from.index..to.index + last.len_utf8()]);
                seen += 1;
            }
        }
    }
    assert_eq!(seen, 16);
}
